use fellm::json::{escape_json_string, json_value_to_string, map_get, parse_json_value, JsonValue};
use fellm::tools::{
    find_char, is_float_literal, parse_assistant_output, py_kwargs_to_json, py_literal_to_json,
    split_top_level_calls, trim_chars, AssistantOutput,
};

#[test]
fn parses_json_tool_call() {
    let out = parse_assistant_output(r#"{"name": "get_weather", "parameters": {"city": "SF"}}"#);
    match out {
        AssistantOutput::ToolCalls(c) => {
            assert_eq!(c[0].name, "get_weather");
            assert!(c[0].arguments.contains("SF"));
        }
        AssistantOutput::Text(t) => panic!("expected tool call, got {t}"),
    }
}

#[test]
fn parses_pythonic_tool_calls() {
    let out = parse_assistant_output("[get_weather(city='San Francisco', metric='celsius')]");
    match out {
        AssistantOutput::ToolCalls(c) => {
            assert_eq!(c[0].name, "get_weather");
            assert!(c[0].arguments.contains("San Francisco"));
        }
        AssistantOutput::Text(t) => panic!("expected tool call, got {t}"),
    }
}

fn calls(out: AssistantOutput) -> Vec<(String, String)> {
    match out {
        AssistantOutput::ToolCalls(c) => c
            .into_iter()
            .map(|t| {
                assert!(t.id.is_empty());
                (t.name, t.arguments)
            })
            .collect(),
        AssistantOutput::Text(t) => panic!("expected tool calls, got text {t}"),
    }
}

#[test]
fn json_call_arguments_are_compact_json() {
    let c = calls(parse_assistant_output(
        "  <|python_tag|> {\"name\":\"f\",\"arguments\":{ \"a\" : [1, true, null], \"b\":\"x\\ny\" }}  ",
    ));
    assert_eq!(c, vec![("f".to_string(), "{\"a\":[1,true,null],\"b\":\"x\\ny\"}".to_string())]);
    let c = calls(parse_assistant_output("{\"name\": \"g\"}"));
    assert_eq!(c, vec![("g".to_string(), "{}".to_string())]);
}

#[test]
fn pythonic_calls_convert_literals() {
    let c = calls(parse_assistant_output(
        "[f(a=1, b=None, c=True, d=\"q\"), g(), h(x=[1, 2], y=-2.5e3, z=word)]",
    ));
    assert_eq!(
        c,
        vec![
            ("f".to_string(), "{\"a\":1,\"b\":null,\"c\":true,\"d\":\"q\"}".to_string()),
            ("g".to_string(), "{}".to_string()),
            ("h".to_string(), "{\"x\":[1, 2],\"y\":-2.5e3,\"z\":\"word\"}".to_string()),
        ]
    );
}

#[test]
fn plain_text_stays_text() {
    for text in ["hello there", "[not a call]", "[f(1)]", "[\"name\" (x)]", "{\"name\": 3}", "{broken", "[]"] {
        match parse_assistant_output(text) {
            AssistantOutput::Text(t) => assert_eq!(t, text),
            AssistantOutput::ToolCalls(c) => panic!("unexpected calls {c:?} for {text}"),
        }
    }
}

#[test]
fn json_values_parse_and_print() {
    let v = parse_json_value(" { \"k\" : [ -1.5e+2 , \"a\\u0041\\t\" , false ] } ").unwrap();
    assert_eq!(json_value_to_string(&v), "{\"k\":[-1.5e+2,\"aA\\t\",false]}");
    match &v {
        JsonValue::Object(m) => {
            assert!(map_get(m, "k").is_some());
            assert!(map_get(m, "x").is_none());
        }
        other => panic!("{other:?}"),
    }
    assert!(parse_json_value("[1,]").is_err());
    assert!(parse_json_value("nul").is_err());
    assert!(parse_json_value("1 2").is_err());
    assert!(parse_json_value("\"\\uD800\"").is_ok());
    assert!(parse_json_value("\"\\uZZZZ\"").is_err());
    match parse_json_value("\"\\uD800\"").unwrap() {
        JsonValue::String(s) => assert_eq!(s, "\u{FFFD}"),
        other => panic!("{other:?}"),
    }
}

#[test]
fn json_string_escaping() {
    assert_eq!(escape_json_string("a\"b\\c\nd\r\te\u{1}\u{7f}é"), "a\\\"b\\\\c\\nd\\r\\te\\u0001\\u007fé");
}

#[test]
fn python_literals() {
    assert_eq!(py_literal_to_json(" None ").unwrap(), "null");
    assert_eq!(py_literal_to_json("'it'").unwrap(), "\"it\"");
    assert_eq!(py_literal_to_json("inf").unwrap(), "inf");
    assert_eq!(py_literal_to_json("1.").unwrap(), "1.");
    assert_eq!(py_literal_to_json(".5").unwrap(), ".5");
    assert_eq!(py_literal_to_json("1e").unwrap(), "\"1e\"");
    assert_eq!(py_literal_to_json("{\"a\": 1}").unwrap(), "{\"a\": 1}");
    assert_eq!(py_literal_to_json("[oops").unwrap(), "\"[oops\"");
    assert!(py_literal_to_json("'").is_err());
    assert_eq!(py_kwargs_to_json("  ").unwrap(), "{}");
    assert_eq!(py_kwargs_to_json("a = 'x,y' , b=(1,2)").unwrap(), "{\"a\":\"x,y\",\"b\":\"(1,2)\"}");
    assert!(py_kwargs_to_json("novalue").is_err());
}

#[test]
fn float_grammar() {
    let yes = ["0", "+1", "-1.5", "1e10", "1E-3", "NaN", "-Infinity", "inf", "2.", ".5e+2"];
    let no = ["", "+", ".", "e1", "1e", "1.2.3", "0x10", " 1", "infin", "1_0"];
    for s in yes {
        let cs: Vec<char> = s.chars().collect();
        assert!(is_float_literal(&cs), "{s}");
        assert!(s.parse::<f64>().is_ok(), "{s}");
    }
    for s in no {
        let cs: Vec<char> = s.chars().collect();
        assert!(!is_float_literal(&cs), "{s}");
        assert!(s.parse::<f64>().is_err(), "{s}");
    }
}

#[test]
fn splitting_and_trimming() {
    let cs: Vec<char> = "f(a, b), g('x,y'), [1,2], h".chars().collect();
    let parts: Vec<String> = split_top_level_calls(&cs).into_iter().map(|p| p.into_iter().collect()).collect();
    assert_eq!(parts, vec!["f(a, b)", " g('x,y')", " [1,2]", " h"]);
    let cs: Vec<char> = "a,".chars().collect();
    assert_eq!(split_top_level_calls(&cs).len(), 1);
    let cs: Vec<char> = "\u{3000} x y \t\n".chars().collect();
    let t: String = trim_chars(&cs).iter().collect();
    assert_eq!(t, "x y");
    let cs: Vec<char> = "abc(d".chars().collect();
    assert_eq!(find_char(&cs, '('), Some(3));
    assert_eq!(find_char(&cs, ')'), None);
}

#[test]
fn split_pieces_join_back_to_the_text() {
    for text in ["f(a, b), g(\"x,y\"), h([1, 2])", "a,b,", ",", "", "x"] {
        let cs: Vec<char> = text.chars().collect();
        let parts: Vec<String> = split_top_level_calls(&cs).into_iter().map(|p| p.into_iter().collect()).collect();
        let joined = parts.join(",");
        if text.ends_with(',') {
            assert_eq!(format!("{joined},"), text);
        } else {
            assert_eq!(joined, text);
        }
    }
}

#[test]
fn parsing_undoes_escaping() {
    for text in ["plain", "q\"uote\\back\nline\r\ttab", "\u{1}\u{1f}\u{7f} ctl", ""] {
        let literal = format!("\"{}\"", escape_json_string(text));
        match parse_json_value(&literal).unwrap() {
            JsonValue::String(s) => assert_eq!(s, text),
            _ => panic!("expected a string"),
        }
    }
}

#[test]
fn split_pieces_hold_no_top_level_comma() {
    let cs: Vec<char> = "f(a, b), g(\"x,y\", 'p,q'), h([1, {2, 3}]),,k".chars().collect();
    let pieces = split_top_level_calls(&cs);
    assert_eq!(pieces.len(), 5);
    for p in pieces {
        let again = split_top_level_calls(&p);
        assert!(again.len() <= 1);
        if let Some(q) = again.first() {
            assert_eq!(q, &p);
        }
    }
}
