use vstd::prelude::*;

verus! {

/// True for the ASCII digits `'0'..='9'`.
pub open spec fn is_dec_digit(c: char) -> bool {
    48 <= c as u32 <= 57
}

/// The numeric value of an ASCII digit.
pub open spec fn digit_val(c: char) -> nat {
    (c as u32 - 48) as nat
}

/// True when every character of `s` is an ASCII digit.
pub open spec fn all_dec_digits(s: Seq<char>) -> bool {
    forall|i: int| 0 <= i < s.len() ==> is_dec_digit(#[trigger] s[i])
}

/// The number a sequence of ASCII digits denotes, most significant first.
pub open spec fn dec_value(s: Seq<char>) -> nat
    decreases s,
{
    if s.len() == 0 {
        0
    } else {
        dec_value(s.drop_last()) * 10 + digit_val(s.last())
    }
}

/// A prefix of a digit string never denotes more than the whole string.
pub proof fn lemma_dec_value_prefix(s: Seq<char>, i: int)
    requires
        0 <= i <= s.len(),
        all_dec_digits(s),
    ensures
        dec_value(s.take(i)) <= dec_value(s),
    decreases s.len() - i,
{
    if i < s.len() {
        lemma_dec_value_prefix(s, i + 1);
        let pre = s.take(i + 1);
        assert(pre.drop_last() =~= s.take(i));
        assert(pre.last() == s[i]);
        assert(dec_value(s.take(i)) <= dec_value(s.take(i)) * 10 + digit_val(s[i]));
    } else {
        assert(s.take(i) =~= s);
    }
}

/// The exact decimal reading of a string: `Some(n)` when `s` is one or more
/// ASCII digits denoting `n` and `n` fits in a `u64`, `None` otherwise.
pub fn parse_u64(s: &str) -> (r: Option<u64>)
    ensures
        r is Some <==> s@.len() > 0 && all_dec_digits(s@) && dec_value(s@) <= u64::MAX,
        r is Some ==> r->0 == dec_value(s@),
{
    let n = s.unicode_len();
    if n == 0 {
        return None;
    }
    let mut acc: u64 = 0;
    let mut i: usize = 0;
    proof {
        assert(s@.take(0) =~= Seq::<char>::empty());
    }
    while i < n
        invariant
            0 <= i <= n,
            n == s@.len(),
            all_dec_digits(s@.take(i as int)),
            acc == dec_value(s@.take(i as int)),
        decreases n - i,
    {
        let c = s.get_char(i);
        let cv = c as u32;
        if cv < 48 || cv > 57 {
            return None;
        }
        let d = (cv - 48) as u64;
        let acc10 = match acc.checked_mul(10) {
            Some(v) => v,
            None => {
                proof {
                    if all_dec_digits(s@) {
                        assert(s@.take(i as int + 1).drop_last() =~= s@.take(i as int));
                        assert(s@.take(i as int + 1).last() == s@[i as int]);
                        lemma_dec_value_prefix(s@, i as int + 1);
                    }
                }
                return None;
            },
        };
        let acc2 = match acc10.checked_add(d) {
            Some(v) => v,
            None => {
                proof {
                    if all_dec_digits(s@) {
                        assert(s@.take(i as int + 1).drop_last() =~= s@.take(i as int));
                        assert(s@.take(i as int + 1).last() == s@[i as int]);
                        lemma_dec_value_prefix(s@, i as int + 1);
                    }
                }
                return None;
            },
        };
        proof {
            assert(s@.take(i as int + 1).drop_last() =~= s@.take(i as int));
            assert(s@.take(i as int + 1).last() == s@[i as int]);
        }
        acc = acc2;
        i = i + 1;
    }
    proof {
        assert(s@.take(n as int) =~= s@);
    }
    Some(acc)
}

/// As [`parse_u64`], bounded to `u32`.
pub fn parse_u32(s: &str) -> (r: Option<u32>)
    ensures
        r is Some <==> s@.len() > 0 && all_dec_digits(s@) && dec_value(s@) <= u32::MAX,
        r is Some ==> r->0 == dec_value(s@),
{
    match parse_u64(s) {
        Some(v) => {
            if v <= u32::MAX as u64 {
                Some(v as u32)
            } else {
                None
            }
        },
        None => None,
    }
}

/// As [`parse_u64`], bounded to `usize`.
pub fn parse_usize(s: &str) -> (r: Option<usize>)
    ensures
        r is Some <==> s@.len() > 0 && all_dec_digits(s@) && dec_value(s@) <= usize::MAX,
        r is Some ==> r->0 == dec_value(s@),
{
    match parse_u64(s) {
        Some(v) => {
            if v <= usize::MAX as u64 {
                Some(v as usize)
            } else {
                None
            }
        },
        None => None,
    }
}

/// The magnitude part of a signed decimal string: what is left after an
/// optional single leading `'-'` or `'+'`.
pub open spec fn signed_digits(s: Seq<char>) -> Seq<char> {
    if s.len() > 0 && (s[0] == '-' || s[0] == '+') {
        s.drop_first()
    } else {
        s
    }
}

/// The integer a signed decimal string denotes.
pub open spec fn signed_value(s: Seq<char>) -> int {
    if s.len() > 0 && s[0] == '-' {
        -(dec_value(signed_digits(s)) as int)
    } else {
        dec_value(signed_digits(s)) as int
    }
}

/// True when `s` is an optional sign followed by one or more ASCII digits.
pub open spec fn is_signed_dec(s: Seq<char>) -> bool {
    signed_digits(s).len() > 0 && all_dec_digits(signed_digits(s))
}

/// The exact reading of a signed decimal string into an `i64`: `Some` exactly
/// when the string is well formed and its value fits.
pub fn parse_i64(s: &str) -> (r: Option<i64>)
    ensures
        r is Some <==> is_signed_dec(s@) && i64::MIN <= signed_value(s@) <= i64::MAX,
        r is Some ==> r->0 == signed_value(s@),
{
    let n = s.unicode_len();
    if n == 0 {
        return None;
    }
    let first = s.get_char(0);
    let negative = first == '-';
    let rest: &str = if first == '-' || first == '+' {
        s.substring_char(1, n)
    } else {
        s
    };
    proof {
        if first == '-' || first == '+' {
            assert(rest@ =~= signed_digits(s@));
        } else {
            assert(rest@ =~= signed_digits(s@));
        }
    }
    match parse_u64(rest) {
        Some(mag) => {
            if negative {
                if mag <= 9223372036854775808u64 {
                    let neg: i128 = -(mag as i128);
                    assert(i64::MIN as i128 <= neg <= 0);
                    Some(neg as i64)
                } else {
                    None
                }
            } else {
                if mag <= i64::MAX as u64 {
                    Some(mag as i64)
                } else {
                    None
                }
            }
        },
        None => None,
    }
}

/// As [`parse_i64`], bounded to `i32`.
pub fn parse_i32(s: &str) -> (r: Option<i32>)
    ensures
        r is Some <==> is_signed_dec(s@) && i32::MIN <= signed_value(s@) <= i32::MAX,
        r is Some ==> r->0 == signed_value(s@),
{
    match parse_i64(s) {
        Some(v) => {
            if i32::MIN as i64 <= v && v <= i32::MAX as i64 {
                Some(v as i32)
            } else {
                None
            }
        },
        None => None,
    }
}

/// The ASCII digit character for a value in `0..=9`.
pub open spec fn digit_char(d: int) -> char {
    (48 + d) as char
}

/// The decimal digit sequence of `n`, most significant first, without leading
/// zeros (`0` is written `"0"`).
pub open spec fn dec_seq(n: nat) -> Seq<char>
    decreases n,
{
    if n < 10 {
        seq![digit_char(n as int)]
    } else {
        dec_seq(n / 10).push(digit_char((n % 10) as int))
    }
}

fn digit_str(d: u64) -> (r: &'static str)
    requires
        d <= 9,
    ensures
        r@ == seq![digit_char(d as int)],
{
    proof {
        reveal_strlit("0");
        reveal_strlit("1");
        reveal_strlit("2");
        reveal_strlit("3");
        reveal_strlit("4");
        reveal_strlit("5");
        reveal_strlit("6");
        reveal_strlit("7");
        reveal_strlit("8");
        reveal_strlit("9");
    }
    let r = match d {
        0 => "0",
        1 => "1",
        2 => "2",
        3 => "3",
        4 => "4",
        5 => "5",
        6 => "6",
        7 => "7",
        8 => "8",
        _ => "9",
    };
    proof {
        assert(r@ =~= seq![digit_char(d as int)]);
    }
    r
}

/// Writing a number in decimal and reading the digits back yields the
/// number: the decimal writing is faithful.
pub proof fn lemma_dec_seq_value(n: nat)
    ensures
        dec_seq(n).len() > 0,
        all_dec_digits(dec_seq(n)),
        dec_value(dec_seq(n)) == n,
    decreases n,
{
    if n < 10 {
        assert(dec_seq(n) =~= seq![digit_char(n as int)]);
        assert(dec_seq(n).drop_last() =~= Seq::<char>::empty());
        assert(dec_seq(n).last() == digit_char(n as int));
        assert(((48 + n) as char) as u32 == 48 + n);
        assert(digit_val(digit_char(n as int)) == n);
        assert(dec_value(dec_seq(n)) == dec_value(dec_seq(n).drop_last()) * 10 + digit_val(
            dec_seq(n).last(),
        ));
        assert(dec_value(dec_seq(n)) == n);
    } else {
        lemma_dec_seq_value(n / 10);
        let s = dec_seq(n);
        assert(s == dec_seq(n / 10).push(digit_char((n % 10) as int)));
        assert(s.drop_last() =~= dec_seq(n / 10));
        assert(s.last() == digit_char((n % 10) as int));
        assert(((48 + (n % 10)) as char) as u32 == 48 + (n % 10));
        assert(digit_val(digit_char((n % 10) as int)) == n % 10);
        assert forall|i: int| 0 <= i < s.len() implies is_dec_digit(#[trigger] s[i]) by {
            if i < s.len() - 1 {
                assert(s[i] == dec_seq(n / 10)[i]);
            }
        }
    }
}

/// Writes `n` in decimal.
pub fn u64_to_string(n: u64) -> (r: String)
    ensures
        r@ == dec_seq(n as nat),
    decreases n,
{
    if n < 10 {
        digit_str(n).to_owned()
    } else {
        let mut s = u64_to_string(n / 10);
        s.append(digit_str(n % 10));
        proof {
            assert(s@ =~= dec_seq(n as nat));
        }
        s
    }
}

/// The decimal writing of a signed number: a `'-'` before the magnitude when
/// it is negative.
pub open spec fn signed_dec_seq(n: int) -> Seq<char> {
    if n < 0 {
        seq!['-'] + dec_seq((-n) as nat)
    } else {
        dec_seq(n as nat)
    }
}

/// Writes `n` in decimal, with a leading `'-'` when negative.
pub fn i64_to_string(n: i64) -> (r: String)
    ensures
        r@ == signed_dec_seq(n as int),
{
    if n >= 0 {
        u64_to_string(n as u64)
    } else {
        proof {
            reveal_strlit("-");
        }
        let mag: u64 = (-(n as i128)) as u64;
        assert(mag as int == -(n as int));
        let mut s = String::from_str("-");
        s.append(u64_to_string(mag).as_str());
        proof {
            assert(s@ =~= signed_dec_seq(n as int));
        }
        s
    }
}

/// Writes `n` in decimal.
pub fn u32_to_string(n: u32) -> (r: String)
    ensures
        r@ == dec_seq(n as nat),
{
    u64_to_string(n as u64)
}

/// Writes `n` in decimal, with a leading `'-'` when negative.
pub fn i32_to_string(n: i32) -> (r: String)
    ensures
        r@ == signed_dec_seq(n as int),
{
    i64_to_string(n as i64)
}

/// Character-for-character equality of two string slices.
pub fn str_eq(a: &str, b: &str) -> (r: bool)
    ensures
        r == (a@ == b@),
{
    let na = a.unicode_len();
    let nb = b.unicode_len();
    if na != nb {
        return false;
    }
    let mut i: usize = 0;
    while i < na
        invariant
            0 <= i <= na,
            na == a@.len(),
            na == b@.len(),
            forall|j: int| 0 <= j < i ==> a@[j] == b@[j],
        decreases na - i,
    {
        if a.get_char(i) != b.get_char(i) {
            return false;
        }
        i = i + 1;
    }
    proof {
        assert(a@ =~= b@);
    }
    true
}

/// The whitespace that separates fields in the kernel's text interfaces.
pub open spec fn is_space(c: char) -> bool {
    c == ' ' || c == '\t' || c == '\n' || c == '\r'
}

/// The length of the run of non-space characters at the front of `s`.
pub open spec fn token_len(s: Seq<char>) -> nat
    decreases s,
{
    if s.len() == 0 || is_space(s[0]) {
        0
    } else {
        1 + token_len(s.drop_first())
    }
}

pub proof fn lemma_token_len_le(s: Seq<char>)
    ensures
        token_len(s) <= s.len(),
        token_len(s) > 0 ==> forall|j: int| 0 <= j < token_len(s) ==> !is_space(s[j]),
        s.len() > 0 && !is_space(s[0]) ==> token_len(s) > 0,
        token_len(s) < s.len() ==> is_space(s[token_len(s) as int]),
    decreases s,
{
    if s.len() > 0 && !is_space(s[0]) {
        lemma_token_len_le(s.drop_first());
        assert forall|j: int| 0 <= j < token_len(s) implies !is_space(s[j]) by {
            if j > 0 {
                assert(s.drop_first()[j - 1] == s[j]);
            }
        }
        if token_len(s) < s.len() {
            assert(s.drop_first()[token_len(s) - 1] == s[token_len(s) as int]);
        }
    }
}

/// The maximal runs of non-space characters of `s`, in order.
pub open spec fn ws_tokens(s: Seq<char>) -> Seq<Seq<char>>
    decreases s.len(),
{
    if s.len() == 0 {
        Seq::empty()
    } else if is_space(s[0]) {
        ws_tokens(s.drop_first())
    } else {
        proof {
            lemma_token_len_le(s);
        }
        seq![s.take(token_len(s) as int)] + ws_tokens(s.skip(token_len(s) as int))
    }
}

/// Splits `s` into its whitespace-separated fields.
pub fn ws_split(s: &str) -> (r: Vec<String>)
    ensures
        r.deep_view() == ws_tokens(s@),
{
    let n = s.unicode_len();
    let mut out: Vec<String> = Vec::new();
    let mut i: usize = 0;
    proof {
        assert(s@.skip(0) =~= s@);
        assert(out.deep_view() =~= Seq::<Seq<char>>::empty());
        assert(ws_tokens(s@) =~= out.deep_view() + ws_tokens(s@.skip(0)));
    }
    while i < n
        invariant
            0 <= i <= n,
            n == s@.len(),
            ws_tokens(s@) == out.deep_view() + ws_tokens(s@.skip(i as int)),
        decreases n - i,
    {
        let c = s.get_char(i);
        if c == ' ' || c == '\t' || c == '\n' || c == '\r' {
            proof {
                assert(s@.skip(i as int).drop_first() =~= s@.skip(i as int + 1));
            }
            i = i + 1;
        } else {
            let ghost rest = s@.skip(i as int);
            let start = i;
            let mut j = i + 1;
            proof {
                lemma_token_len_le(rest);
            }
            while j < n
                invariant
                    start < j <= n,
                    i == start,
                    n == s@.len(),
                    rest == s@.skip(start as int),
                    forall|k: int| start <= k < j ==> !is_space(s@[k]),
                ensures
                    start < j <= n,
                    forall|k: int| start <= k < j ==> !is_space(s@[k]),
                    j == n || is_space(s@[j as int]),
                decreases n - j,
            {
                let c2 = s.get_char(j);
                if c2 == ' ' || c2 == '\t' || c2 == '\n' || c2 == '\r' {
                    break;
                }
                j = j + 1;
            }
            proof {
                lemma_token_len_le(rest);
                assert forall|k: int| 0 <= k < j - start implies !is_space(rest[k]) by {
                    assert(rest[k] == s@[start + k]);
                }
                if (j as int) < n {
                    assert(rest[j - start] == s@[j as int]);
                    assert(is_space(rest[j - start]));
                }
                assert(token_len(rest) == j - start) by {
                    if token_len(rest) < j - start {
                        assert(!is_space(rest[token_len(rest) as int]));
                    }
                }
            }
            let tok = s.substring_char(start, j);
            proof {
                assert(tok@ =~= rest.take(token_len(rest) as int));
                assert(s@.skip(j as int) =~= rest.skip(token_len(rest) as int));
            }
            out.push(tok.to_owned());
            proof {
                assert(out.deep_view() =~= out.deep_view().drop_last().push(tok@));
            }
            i = j;
        }
    }
    proof {
        assert(s@.skip(n as int) =~= Seq::<char>::empty());
        assert(ws_tokens(s@) =~= out.deep_view());
    }
    out
}

/// True when `p` is a prefix of `s`.
pub open spec fn starts_with(s: Seq<char>, p: Seq<char>) -> bool {
    s.len() >= p.len() && s.take(p.len() as int) == p
}

/// Whether `s` begins with the characters of `p`.
pub fn str_starts_with(s: &str, p: &str) -> (r: bool)
    ensures
        r == starts_with(s@, p@),
{
    let ns = s.unicode_len();
    let np = p.unicode_len();
    if ns < np {
        assert(!starts_with(s@, p@));
        return false;
    }
    let mut i: usize = 0;
    while i < np
        invariant
            0 <= i <= np,
            np == p@.len(),
            ns == s@.len(),
            np <= ns,
            forall|j: int| 0 <= j < i ==> s@[j] == p@[j],
        decreases np - i,
    {
        if s.get_char(i) != p.get_char(i) {
            assert(s@.take(np as int)[i as int] != p@[i as int]);
            return false;
        }
        i = i + 1;
    }
    proof {
        assert(s@.take(np as int) =~= p@);
    }
    true
}

} // verus!
