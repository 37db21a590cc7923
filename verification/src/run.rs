//! The decisions of a generation run that come before and after the engine does its work:
//! which speculative decoder to use, whether thinking is forced, and which generated
//! tokens are shown.
use vstd::prelude::*;

use crate::error::FellmError;
use crate::text::str_equal;

verus! {

/// The text of an optional setting equals `w`.
pub open spec fn is_text(v: Option<Seq<char>>, w: Seq<char>) -> bool {
    v matches Some(s) && s == w
}

/// Why the speculative decoding options cannot be combined, if they cannot: `off` with a
/// speculator or draft model, or a draft model with the `mtp` or `dspark` speculator.
pub open spec fn speculation_conflict(speculative: Option<Seq<char>>, speculator: Option<Seq<char>>, has_draft: bool) -> Option<
    Seq<char>,
> {
    if is_text(speculative, "off"@) && (has_draft || speculator is Some) {
        Some("--speculative off cannot be combined with a speculator or draft model"@)
    } else if has_draft && (is_text(speculator, "mtp"@) || is_text(speculator, "dspark"@)) {
        Some("choose either --speculative-draft or --speculator, not both"@)
    } else {
        None
    }
}

fn text_is(v: Option<&str>, w: &str) -> (b: bool)
    ensures
        b == is_text(
            match v {
                Some(s) => Some(s@),
                None => None,
            },
            w@,
        ),
{
    match v {
        Some(s) => str_equal(s, w),
        None => false,
    }
}

/// Check that the speculative decoding options can be combined.
pub fn check_speculation(speculative: Option<&str>, speculator: Option<&str>, has_draft: bool) -> (r: Result<
    (),
    FellmError,
>)
    ensures
        match speculation_conflict(
            match speculative { Some(s) => Some(s@), None => None },
            match speculator { Some(s) => Some(s@), None => None },
            has_draft,
        ) {
            Some(m) => r matches Err(FellmError::Other(e)) && e@ == m,
            None => r is Ok,
        },
{
    if text_is(speculative, "off") && (has_draft || speculator.is_some()) {
        return Err(FellmError::other("--speculative off cannot be combined with a speculator or draft model"));
    }
    if has_draft && (text_is(speculator, "mtp") || text_is(speculator, "dspark")) {
        return Err(FellmError::other("choose either --speculative-draft or --speculator, not both"));
    }
    Ok(())
}

/// Whether choosing the speculator needs the model's MTP layer count: `auto` speculation
/// with no speculator named.
pub open spec fn probes_model(speculative: Option<Seq<char>>, speculator: Option<Seq<char>>) -> bool {
    is_text(speculative, "auto"@) && speculator is None
}

/// The speculator of a run. A named speculator wins. Without one, `auto` speculation picks
/// the model's own MTP layers when it has some, else `dspark` when a speculator model is
/// given, else none; any other speculation setting but `off` names the speculator itself.
/// A speculator called `off` is none.
pub open spec fn speculator_kind(
    speculative: Option<Seq<char>>,
    speculator: Option<Seq<char>>,
    has_speculator_model: bool,
    n_mtp_layers: nat,
) -> Option<Seq<char>> {
    let k = if probes_model(speculative, speculator) {
        if n_mtp_layers > 0 {
            Some("mtp"@)
        } else if has_speculator_model {
            Some("dspark"@)
        } else {
            None
        }
    } else if speculative matches Some(s) && s != "auto"@ && s != "off"@ && speculator is None {
        speculative
    } else {
        speculator
    };
    if is_text(k, "off"@) {
        None
    } else {
        k
    }
}

/// Whether choosing the speculator needs the model's MTP layer count.
pub fn needs_model_probe(speculative: Option<&str>, speculator: Option<&str>) -> (b: bool)
    ensures
        b == probes_model(
            match speculative { Some(s) => Some(s@), None => None },
            match speculator { Some(s) => Some(s@), None => None },
        ),
{
    text_is(speculative, "auto") && speculator.is_none()
}

/// The speculator of a run; `n_mtp_layers` (the model's MTP layer count) is read only when
/// [`needs_model_probe`] says so.
pub fn choose_speculator(
    speculative: Option<&str>,
    speculator: Option<&str>,
    has_speculator_model: bool,
    n_mtp_layers: u32,
) -> (r: Option<String>)
    ensures
        match r { Some(s) => Some(s@), None => None } == speculator_kind(
            match speculative { Some(s) => Some(s@), None => None },
            match speculator { Some(s) => Some(s@), None => None },
            has_speculator_model,
            n_mtp_layers as nat,
        ),
{
    let kind: Option<&str> = if needs_model_probe(speculative, speculator) {
        if n_mtp_layers > 0 {
            Some("mtp")
        } else if has_speculator_model {
            Some("dspark")
        } else {
            None
        }
    } else {
        match speculative {
            Some(s) => {
                if !str_equal(s, "auto") && !str_equal(s, "off") && speculator.is_none() {
                    Some(s)
                } else {
                    speculator
                }
            },
            None => speculator,
        }
    };
    match kind {
        Some(k) => {
            if str_equal(k, "off") {
                None
            } else {
                Some(k.to_owned())
            }
        },
        None => None,
    }
}

/// Message for a speculator that is neither `mtp` nor `dspark`.
#[verifier::external_body]
fn unknown_speculator_message(kind: &str) -> String {
    format!("unknown speculator '{kind}' (expected mtp or dspark)")
}

/// Check the chosen speculator: `mtp` (which needs no speculator model) or `dspark`.
pub fn check_speculator(kind: &str, has_speculator_model: bool) -> (r: Result<(), FellmError>)
    ensures
        kind@ != "mtp"@ && kind@ != "dspark"@ ==> r matches Err(FellmError::Other(_)),
        kind@ == "mtp"@ && has_speculator_model ==> (r matches Err(FellmError::Other(m))
            && m@ == "native MTP uses tensors embedded in the target; --speculator-model is not applicable"@),
        r is Ok <==> kind@ == "dspark"@ || (kind@ == "mtp"@ && !has_speculator_model),
{
    proof {
        reveal_strlit("mtp");
        reveal_strlit("dspark");
        assert("mtp"@.len() != "dspark"@.len());
    }
    let mtp = str_equal(kind, "mtp");
    if !mtp && !str_equal(kind, "dspark") {
        return Err(FellmError::Other(unknown_speculator_message(kind)));
    }
    if mtp && has_speculator_model {
        return Err(
            FellmError::other("native MTP uses tensors embedded in the target; --speculator-model is not applicable"),
        );
    }
    Ok(())
}

/// The thinking setting of a run: forced on, forced off, or left to the model; asking for
/// both is refused.
pub fn thinking_setting(think: bool, no_think: bool) -> (r: Result<Option<bool>, FellmError>)
    ensures
        think && no_think ==> (r matches Err(FellmError::Other(m))
            && m@ == "--think and --no-think cannot be used together"@),
        !(think && no_think) ==> r == Ok::<Option<bool>, FellmError>(
            if think {
                Some(true)
            } else if no_think {
                Some(false)
            } else {
                None
            },
        ),
{
    if think && no_think {
        return Err(FellmError::other("--think and --no-think cannot be used together"));
    }
    Ok(
        if think {
            Some(true)
        } else if no_think {
            Some(false)
        } else {
            None
        },
    )
}

/// The thinking option of the chat template: the run's setting, else off for a tokenizer
/// that supports thinking, else unset.
pub fn chat_thinking(setting: Option<bool>, supports_thinking: bool) -> (r: Option<bool>)
    ensures
        r == match setting {
            Some(b) => Some(b),
            None => if supports_thinking {
                Some(false)
            } else {
                None
            },
        },
{
    match setting {
        Some(b) => Some(b),
        None => if supports_thinking {
            Some(false)
        } else {
            None
        },
    }
}

/// The generated tokens that are shown: those that are not stop tokens, in order.
pub open spec fn visible(tokens: Seq<u32>, stop_ids: Seq<u32>) -> Seq<u32>
    decreases tokens.len(),
{
    if tokens.len() == 0 {
        Seq::empty()
    } else {
        let rest = visible(tokens.drop_last(), stop_ids);
        if stop_ids.contains(tokens.last()) {
            rest
        } else {
            rest.push(tokens.last())
        }
    }
}

fn is_stop(stop_ids: &[u32], t: u32) -> (b: bool)
    ensures
        b == stop_ids@.contains(t),
{
    let mut i: usize = 0;
    while i < stop_ids.len()
        invariant
            i <= stop_ids@.len(),
            forall|k: int| 0 <= k < i ==> stop_ids@[k] != t,
        decreases stop_ids@.len() - i,
    {
        if stop_ids[i] == t {
            return true;
        }
        i = i + 1;
    }
    false
}

/// The generated tokens that are shown: those that are not stop tokens, in order.
pub fn visible_tokens(tokens: &[u32], stop_ids: &[u32]) -> (v: Vec<u32>)
    ensures
        v@ == visible(tokens@, stop_ids@),
{
    let mut v: Vec<u32> = Vec::new();
    let mut i: usize = 0;
    assert(tokens@.take(0) =~= Seq::<u32>::empty());
    while i < tokens.len()
        invariant
            i <= tokens@.len(),
            v@ == visible(tokens@.take(i as int), stop_ids@),
        decreases tokens@.len() - i,
    {
        proof {
            assert(tokens@.take(i + 1).drop_last() =~= tokens@.take(i as int));
            assert(tokens@.take(i + 1).last() == tokens@[i as int]);
        }
        let t = tokens[i];
        if !is_stop(stop_ids, t) {
            v.push(t);
        }
        i = i + 1;
    }
    assert(tokens@.take(tokens@.len() as int) =~= tokens@);
    v
}

} // verus!
