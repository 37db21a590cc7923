//! Turning generated bytes into text as they stream in: only complete UTF-8 is emitted.
use vstd::prelude::*;
use vstd::slice::{slice_subrange, slice_to_vec};
use vstd::string::StringSliceAdditionalSpecFns;
use vstd::utf8::{decode_utf8, valid_utf8};

verus! {

/// The length of the longest prefix of `b`, no longer than `k`, that is valid UTF-8.
pub open spec fn valid_prefix_len(b: Seq<u8>, k: int) -> int
    decreases k,
{
    if k <= 0 {
        0
    } else if valid_utf8(b.take(k)) {
        k
    } else {
        valid_prefix_len(b, k - 1)
    }
}

proof fn lemma_valid_prefix_len(b: Seq<u8>, k: int)
    requires
        0 <= k <= b.len(),
    ensures
        0 <= valid_prefix_len(b, k) <= k,
        valid_utf8(b.take(valid_prefix_len(b, k))),
    decreases k,
{
    if k <= 0 {
        assert(b.take(0) =~= Seq::<u8>::empty());
        assert(valid_utf8(Seq::<u8>::empty()));
    } else if !valid_utf8(b.take(k)) {
        lemma_valid_prefix_len(b, k - 1);
    }
}

/// Remove the longest valid-UTF-8 prefix of `buf` and return it as text; an incomplete
/// or invalid tail stays in `buf` for the next call.
pub fn flush_valid_utf8_prefix(buf: &mut Vec<u8>) -> (s: String)
    ensures
        ({
            let cut = valid_prefix_len(old(buf)@, old(buf)@.len() as int);
            &&& s@ == decode_utf8(old(buf)@.take(cut))
            &&& final(buf)@ == old(buf)@.skip(cut)
        }),
{
    let ghost b = buf@;
    let mut cut = buf.len();
    let mut text: Option<&str> = None;
    while cut > 0
        invariant
            cut <= b.len(),
            b == buf@,
            valid_prefix_len(b, b.len() as int) == valid_prefix_len(b, cut as int),
            text matches Some(t) ==> t.spec_bytes() == b.take(cut as int) && valid_utf8(b.take(cut as int)),
            text is Some ==> cut > 0,
        ensures
            cut <= b.len(),
            b == buf@,
            valid_prefix_len(b, b.len() as int) == valid_prefix_len(b, cut as int),
            text matches Some(t) ==> t.spec_bytes() == b.take(cut as int) && valid_utf8(b.take(cut as int)),
            text is Some || cut == 0,
        decreases cut,
    {
        let head = slice_subrange(buf.as_slice(), 0, cut);
        proof {
            assert(head@ =~= b.take(cut as int));
        }
        match crate::text::str_from_utf8(head) {
            Some(t) => {
                text = Some(t);
                break;
            },
            None => {
                cut = cut - 1;
            },
        }
    }
    proof {
        lemma_valid_prefix_len(b, cut as int);
        if text is Some {
            assert(valid_prefix_len(b, cut as int) == cut);
        } else {
            assert(cut == 0);
        }
        assert(valid_prefix_len(b, b.len() as int) == cut);
    }
    let out = match text {
        Some(t) => {
            proof {
                vstd::utf8::encode_utf8_decode_utf8(t@);
            }
            t.to_owned()
        },
        None => {
            proof {
                assert(b.take(0) =~= Seq::<u8>::empty());
                assert(decode_utf8(Seq::<u8>::empty()) =~= Seq::<char>::empty());
            }
            String::new()
        },
    };
    let rest = slice_to_vec(slice_subrange(buf.as_slice(), cut, buf.len()));
    proof {
        assert(rest@ =~= b.skip(cut as int));
    }
    *buf = rest;
    out
}

} // verus!
