use vstd::prelude::*;
use vstd::string::StringExecFns;

verus! {

/// The decimal digit character for `d` in `0..10`.
pub open spec fn dec_digit(d: int) -> char {
    if d == 0 {
        '0'
    } else if d == 1 {
        '1'
    } else if d == 2 {
        '2'
    } else if d == 3 {
        '3'
    } else if d == 4 {
        '4'
    } else if d == 5 {
        '5'
    } else if d == 6 {
        '6'
    } else if d == 7 {
        '7'
    } else if d == 8 {
        '8'
    } else {
        '9'
    }
}

/// The decimal rendering of `n`, most significant digit first, no sign and no
/// leading zero.
pub open spec fn dec_str(n: int) -> Seq<char>
    decreases n,
{
    if n < 10 {
        seq![dec_digit(n)]
    } else {
        dec_str(n / 10) + seq![dec_digit(n % 10)]
    }
}

/// The path of a child location: the parent's prefix, a separator, the
/// segment, joined without collapsing or escaping anything.
pub open spec fn child_path(prefix: Seq<char>, seg: Seq<char>) -> Seq<char> {
    prefix + seq!['/'] + seg
}

/// The path that addresses the value at `p` itself when it is wholesale
/// replaced: the bare `/` at the document root, the prefix elsewhere.
pub open spec fn replace_path(p: Seq<char>) -> Seq<char> {
    if p.len() == 0 {
        seq!['/']
    } else {
        p
    }
}

/// The one-character text of a decimal digit.
fn digit_str(d: usize) -> (r: &'static str)
    requires
        d < 10,
    ensures
        r@ == seq![dec_digit(d as int)],
{
    let r: &'static str = match d {
        0 => "0",
        1 => "1",
        2 => "2",
        3 => "3",
        4 => "4",
        5 => "5",
        6 => "6",
        7 => "7",
        8 => "8",
        _ => "9",
    };
    proof {
        reveal_strlit("0");
        reveal_strlit("1");
        reveal_strlit("2");
        reveal_strlit("3");
        reveal_strlit("4");
        reveal_strlit("5");
        reveal_strlit("6");
        reveal_strlit("7");
        reveal_strlit("8");
        reveal_strlit("9");
        assert(r@ =~= seq![dec_digit(d as int)]);
    }
    r
}

/// Appends the decimal rendering of `n` to `out`.
pub fn push_dec(n: usize, out: &mut String)
    ensures
        final(out)@ == old(out)@ + dec_str(n as int),
    decreases n,
{
    if n >= 10 {
        push_dec(n / 10, out);
    }
    out.append(digit_str(n % 10));
    proof {
        assert(out@ =~= old(out)@ + dec_str(n as int));
    }
}

/// The path of an array element: `prefix`, `/`, the index in decimal.
pub fn index_path(prefix: &str, i: usize) -> (r: String)
    ensures
        r@ == child_path(prefix@, dec_str(i as int)),
{
    let mut r = prefix.to_owned();
    r.append("/");
    push_dec(i, &mut r);
    proof {
        reveal_strlit("/");
        assert("/"@ =~= seq!['/']);
        assert(r@ =~= child_path(prefix@, dec_str(i as int)));
    }
    r
}

/// The path of an object member: `prefix`, `/`, the key.
pub fn key_path(prefix: &str, key: &str) -> (r: String)
    ensures
        r@ == child_path(prefix@, key@),
{
    let mut r = prefix.to_owned();
    r.append("/");
    r.append(key);
    proof {
        reveal_strlit("/");
        assert("/"@ =~= seq!['/']);
        assert(r@ =~= child_path(prefix@, key@));
    }
    r
}

/// The replace path for the location `prefix`.
pub fn whole_path(prefix: &str) -> (r: String)
    ensures
        r@ == replace_path(prefix@),
{
    if prefix.is_empty() {
        let r = String::from_str("/");
        proof {
            reveal_strlit("/");
            assert(r@ =~= replace_path(prefix@));
        }
        r
    } else {
        prefix.to_owned()
    }
}

} // verus!
