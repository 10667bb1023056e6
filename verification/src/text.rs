//! Rendering of numbers, byte lists and strings in the forms that Rust's
//! `Debug` formatting gives them, for error messages.
use vstd::prelude::*;
use vstd::string::StringExecFns;

verus! {

/// The decimal digit `d`.
pub open spec fn digit(d: nat) -> Seq<char> {
    if d == 0 {
        "0"@
    } else if d == 1 {
        "1"@
    } else if d == 2 {
        "2"@
    } else if d == 3 {
        "3"@
    } else if d == 4 {
        "4"@
    } else if d == 5 {
        "5"@
    } else if d == 6 {
        "6"@
    } else if d == 7 {
        "7"@
    } else if d == 8 {
        "8"@
    } else {
        "9"@
    }
}

/// `n` written in decimal, without leading zeros.
pub open spec fn decimal(n: nat) -> Seq<char>
    decreases n,
{
    if n < 10 {
        digit(n)
    } else {
        decimal(n / 10) + digit(n % 10)
    }
}

/// The elements of `b` in decimal, separated by `", "`.
pub open spec fn list_items(b: Seq<u8>) -> Seq<char>
    decreases b.len(),
{
    if b.len() == 0 {
        Seq::empty()
    } else if b.len() == 1 {
        decimal(b[0] as nat)
    } else {
        list_items(b.drop_last()) + ", "@ + decimal(b.last() as nat)
    }
}

/// How `{:?}` renders a byte list: `[1, 2, 3]`.
pub open spec fn bytes_debug(b: Seq<u8>) -> Seq<char> {
    "["@ + list_items(b) + "]"@
}

/// How `{:?}` renders a string: quoted, with escapes. Its result depends on
/// the string alone.
pub uninterp spec fn str_debug(s: Seq<char>) -> Seq<char>;

fn digit_str(d: u64) -> (s: &'static str)
    requires
        d < 10,
    ensures
        s@ == digit(d as nat),
{
    if d == 0 {
        "0"
    } else if d == 1 {
        "1"
    } else if d == 2 {
        "2"
    } else if d == 3 {
        "3"
    } else if d == 4 {
        "4"
    } else if d == 5 {
        "5"
    } else if d == 6 {
        "6"
    } else if d == 7 {
        "7"
    } else if d == 8 {
        "8"
    } else {
        "9"
    }
}

/// Appends `n` in decimal.
pub fn push_decimal(out: &mut String, n: u64)
    ensures
        final(out)@ == old(out)@ + decimal(n as nat),
    decreases n,
{
    if n >= 10 {
        push_decimal(out, n / 10);
    }
    out.append(digit_str(n % 10));
}

/// Appends `b` as `{:?}` renders a byte list.
pub fn push_bytes_debug(out: &mut String, b: &[u8])
    ensures
        final(out)@ == old(out)@ + bytes_debug(b@),
{
    let ghost start = out@;
    out.append("[");
    let n = b.len();
    let mut i: usize = 0;
    while i < n
        invariant
            n == b@.len(),
            i <= n,
            out@ == start + "["@ + list_items(b@.take(i as int)),
        decreases n - i,
    {
        let ghost prev = out@;
        if i > 0 {
            out.append(", ");
        }
        push_decimal(out, b[i] as u64);
        proof {
            let t = b@.take(i + 1);
            assert(t.drop_last() =~= b@.take(i as int));
            assert(t.last() == b@[i as int]);
            if i == 0 {
                assert(t.len() == 1);
                assert(list_items(b@.take(0)) =~= Seq::<char>::empty());
                assert(out@ =~= start + "["@ + list_items(t));
            } else {
                assert(out@ =~= start + "["@ + list_items(t));
            }
        }
        i = i + 1;
    }
    assert(b@.take(n as int) =~= b@);
    out.append("]");
    assert(out@ =~= start + bytes_debug(b@));
}

/// Calls `format!("{:?}", s)`: the quoted and escaped form of `s`.
#[verifier::external_body]
pub(crate) fn debug_str(s: &str) -> (r: String)
    ensures
        r@ == str_debug(s@),
{
    format!("{:?}", s)
}

} // verus!
