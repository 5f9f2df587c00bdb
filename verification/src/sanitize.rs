//! Sanitization of inbound bytes: only printable ASCII is kept, and
//! leading/trailing spaces are trimmed before a line is relayed.

use vstd::prelude::*;

verus! {

/// A byte is printable ASCII: in the inclusive range 0x20 (space) to 0x7E (`~`).
pub open spec fn is_printable(b: u8) -> bool {
    0x20 <= b <= 0x7e
}

/// The subsequence of `s` made of its printable ASCII bytes, in order.
pub open spec fn keep_printable(s: Seq<u8>) -> Seq<u8>
    decreases s.len(),
{
    if s.len() == 0 {
        Seq::empty()
    } else {
        keep_printable(s.drop_last()) + if is_printable(s.last()) {
            seq![s.last()]
        } else {
            Seq::<u8>::empty()
        }
    }
}

/// `s` with its leading spaces removed.
pub open spec fn trim_front(s: Seq<u8>) -> Seq<u8>
    decreases s.len(),
{
    if s.len() > 0 && s[0] == 0x20 {
        trim_front(s.drop_first())
    } else {
        s
    }
}

/// `s` with its trailing spaces removed.
pub open spec fn trim_back(s: Seq<u8>) -> Seq<u8>
    decreases s.len(),
{
    if s.len() > 0 && s.last() == 0x20 {
        trim_back(s.drop_last())
    } else {
        s
    }
}

/// The sanitized form of a received chunk: printable ASCII only,
/// then spaces trimmed from both ends. (After the printable filter the
/// only whitespace byte left is the space itself.)
pub open spec fn sanitize_spec(s: Seq<u8>) -> Seq<u8> {
    trim_back(trim_front(keep_printable(s)))
}

/// Keep only the printable ASCII bytes of `input`, in order.
pub fn filter_printable(input: &Vec<u8>) -> (out: Vec<u8>)
    ensures
        out@ == keep_printable(input@),
{
    let mut out: Vec<u8> = Vec::new();
    let mut i: usize = 0;
    while i < input.len()
        invariant
            i <= input.len(),
            out@ == keep_printable(input@.take(i as int)),
        decreases input.len() - i,
    {
        let b = input[i];
        if 0x20 <= b && b <= 0x7e {
            out.push(b);
        }
        proof {
            assert(input@.take(i + 1 as int).drop_last() =~= input@.take(i as int));
            assert(input@.take(i + 1 as int).last() == input@[i as int]);
        }
        i = i + 1;
    }
    proof {
        assert(input@.take(input@.len() as int) =~= input@);
    }
    out
}

/// Sanitize one received chunk: keep printable ASCII bytes only, then trim
/// spaces from both ends. The result is exactly `sanitize_spec(input@)`.
pub fn sanitize(input: &Vec<u8>) -> (out: Vec<u8>)
    ensures
        out@ == sanitize_spec(input@),
{
    let v = filter_printable(input);
    proof {
        assert(v@.skip(0) =~= v@);
    }
    let mut a: usize = 0;
    while a < v.len() && v[a] == 0x20
        invariant
            a <= v.len(),
            trim_front(v@) == trim_front(v@.skip(a as int)),
        decreases v.len() - a,
    {
        proof {
            assert(v@.skip(a as int).drop_first() =~= v@.skip(a + 1 as int));
        }
        a = a + 1;
    }
    proof {
        assert(trim_front(v@) == v@.skip(a as int));
    }
    let ghost t: Seq<u8> = v@.skip(a as int);
    proof {
        assert(t.take(v@.len() - a) =~= t);
    }
    let mut b: usize = v.len();
    while b > a && v[b - 1] == 0x20
        invariant
            a <= b <= v.len(),
            trim_front(v@) == t,
            t == v@.skip(a as int),
            trim_back(t) == trim_back(t.take(b - a)),
        decreases b,
    {
        proof {
            assert(t.take(b - a).last() == v@[b - 1]);
            assert(t.take(b - a).drop_last() =~= t.take(b - 1 - a as int));
        }
        b = b - 1;
    }
    proof {
        assert(trim_back(t.take(b - a)) == t.take(b - a));
    }
    let mut out: Vec<u8> = Vec::new();
    let mut i: usize = a;
    while i < b
        invariant
            a <= i <= b <= v.len(),
            out@ =~= v@.subrange(a as int, i as int),
        decreases b - i,
    {
        out.push(v[i]);
        i = i + 1;
    }
    proof {
        assert(out@ =~= t.take(b - a));
    }
    out
}

} // verus!
