//! Asset URLs: rendering the URL a committed asset is served under, and
//! extracting the asset identifier from a request path, whose final
//! segment is the decimal identifier (a trailing query string is
//! stripped).

use vstd::prelude::*;
use vstd::string::{StringExecFns, StrSliceExecFns};
use vstd::utf8::is_ascii_chars;

verus! {

/// The character of a single decimal digit.
pub open spec fn digit_char(d: u128) -> char
    recommends
        d < 10,
{
    if d == 0 {
        '0'
    } else if d == 1 {
        '1'
    } else if d == 2 {
        '2'
    } else if d == 3 {
        '3'
    } else if d == 4 {
        '4'
    } else if d == 5 {
        '5'
    } else if d == 6 {
        '6'
    } else if d == 7 {
        '7'
    } else if d == 8 {
        '8'
    } else {
        '9'
    }
}

/// The decimal digits of `n`, most significant first, no leading zeros.
pub open spec fn dec_digits(n: u128) -> Seq<char>
    decreases n,
{
    if n < 10 {
        seq![digit_char(n)]
    } else {
        dec_digits(n / 10).push(digit_char(n % 10))
    }
}

/// Whether `c` is a decimal digit.
pub open spec fn is_digit(c: char) -> bool {
    48 <= c as u32 <= 57
}

/// Whether every character of `s` is a decimal digit.
pub open spec fn all_digits(s: Seq<char>) -> bool {
    forall|i: int| 0 <= i < s.len() ==> is_digit(#[trigger] s[i])
}

/// The value of a decimal digit string.
pub open spec fn dec_val(s: Seq<char>) -> int
    decreases s.len(),
{
    if s.len() == 0 {
        0
    } else {
        dec_val(s.drop_last()) * 10 + (s.last() as u32 - 48)
    }
}

/// Rendering yields digits alone, at least one of them.
pub proof fn lemma_dec_digits_shape(n: u128)
    ensures
        dec_digits(n).len() >= 1,
        all_digits(dec_digits(n)),
        is_ascii_chars(dec_digits(n)),
    decreases n,
{
    if n < 10 {
    } else {
        lemma_dec_digits_shape(n / 10);
    }
}

/// Ten to the `k`.
pub open spec fn pow10(k: nat) -> int
    decreases k,
{
    if k == 0 {
        1
    } else {
        10 * pow10((k - 1) as nat)
    }
}

/// A value below ten to the `k` renders as at most `k` digits.
pub proof fn lemma_dec_digits_len(n: u128, k: nat)
    requires
        k >= 1,
        n < pow10(k),
    ensures
        dec_digits(n).len() <= k,
    decreases k,
{
    if n < 10 {
    } else {
        assert(pow10(k) == 10 * pow10((k - 1) as nat));
        assert(n / 10 < pow10((k - 1) as nat)) by (nonlinear_arith)
            requires
                n >= 10,
                n < 10 * pow10((k - 1) as nat),
        ;
        lemma_dec_digits_len(n / 10, (k - 1) as nat);
    }
}

/// Every `u128` renders as at most 39 digits.
pub proof fn lemma_dec_digits_len_u128(n: u128)
    ensures
        dec_digits(n).len() <= 39,
{
    assert(pow10(39) > 0x100000000000000000000000000000000) by {
        reveal_with_fuel(pow10, 40);
    }
    lemma_dec_digits_len(n, 39);
}

/// Parsing inverts rendering: the digit string of `n` has value `n`.
pub proof fn lemma_dec_round_trip(n: u128)
    ensures
        dec_val(dec_digits(n)) == n,
    decreases n,
{
    if n < 10 {
        assert(digit_char(n) as u32 == 48 + n);
        assert(dec_digits(n) =~= seq![digit_char(n)]);
        assert(dec_digits(n).drop_last() =~= Seq::<char>::empty());
        assert(dec_val(Seq::<char>::empty()) == 0);
        assert(dec_val(dec_digits(n)) == 0 * 10 + (digit_char(n) as u32 - 48));
    } else {
        lemma_dec_round_trip(n / 10);
        assert(dec_digits(n).drop_last() =~= dec_digits(n / 10));
        assert(dec_digits(n).last() == digit_char(n % 10));
        assert(digit_char(n % 10) as u32 == 48 + (n % 10));
        assert(dec_val(dec_digits(n)) == dec_val(dec_digits(n / 10)) * 10 + (digit_char(n % 10) as u32
            - 48));
        vstd::arithmetic::div_mod::lemma_fundamental_div_mod(n as int, 10);
    }
}

/// The single-character string of a decimal digit.
fn digit_str(d: u128) -> (s: &'static str)
    requires
        d < 10,
    ensures
        s@ == seq![digit_char(d)],
        s@.len() == 1,
{
    proof {
        reveal_strlit("0");
        reveal_strlit("1");
        reveal_strlit("2");
        reveal_strlit("3");
        reveal_strlit("4");
        reveal_strlit("5");
        reveal_strlit("6");
        reveal_strlit("7");
        reveal_strlit("8");
        reveal_strlit("9");
    }
    let s = match d {
        0 => "0",
        1 => "1",
        2 => "2",
        3 => "3",
        4 => "4",
        5 => "5",
        6 => "6",
        7 => "7",
        8 => "8",
        _ => "9",
    };
    proof {
        assert(s@ =~= seq![digit_char(d)]);
    }
    s
}

/// Renders `n` in decimal.
pub fn u128_to_dec(n: u128) -> (s: String)
    ensures
        s@ == dec_digits(n),
    decreases n,
{
    if n < 10 {
        String::from_str(digit_str(n))
    } else {
        let mut s = u128_to_dec(n / 10);
        s.append(digit_str(n % 10));
        proof {
            assert(s@ =~= dec_digits(n));
        }
        s
    }
}

/// The URL an asset is served under: scheme and host around the instance
/// name, then the asset path ending in the decimal identifier.
pub open spec fn url_chars(canister: Seq<char>, asset_id: u128, in_production: bool) -> Seq<
    char,
> {
    if in_production {
        "https://"@ + canister + ".raw.ic0.app/asset/"@ + dec_digits(asset_id)
    } else {
        "http://"@ + canister + ".localhost:8080/asset/"@ + dec_digits(asset_id)
    }
}

/// An asset URL over an ASCII instance name is ASCII and short.
pub proof fn lemma_url_chars_ascii(canister: Seq<char>, asset_id: u128, in_production: bool)
    requires
        is_ascii_chars(canister),
    ensures
        is_ascii_chars(url_chars(canister, asset_id, in_production)),
        url_chars(canister, asset_id, in_production).len() <= canister.len() + 68,
{
    reveal_strlit("https://");
    reveal_strlit(".raw.ic0.app/asset/");
    reveal_strlit("http://");
    reveal_strlit(".localhost:8080/asset/");
    lemma_dec_digits_shape(asset_id);
    lemma_dec_digits_len_u128(asset_id);
    let u = url_chars(canister, asset_id, in_production);
    if in_production {
        assert(is_ascii_chars("https://"@));
        assert(is_ascii_chars(".raw.ic0.app/asset/"@));
    } else {
        assert(is_ascii_chars("http://"@));
        assert(is_ascii_chars(".localhost:8080/asset/"@));
    }
    assert("https://"@.len() == 8);
    assert(".raw.ic0.app/asset/"@.len() == 19);
    assert("http://"@.len() == 7);
    assert(".localhost:8080/asset/"@.len() == 22);
    assert forall|i: int| 0 <= i < u.len() implies '\0' <= #[trigger] u[i] <= '\u{7f}' by {}
}

/// Renders the URL an asset is served under.
pub fn generate_url(canister_text: &str, asset_id: u128, in_production: bool) -> (s: String)
    ensures
        s@ == url_chars(canister_text@, asset_id, in_production),
{
    let digits = u128_to_dec(asset_id);
    let mut s = if in_production {
        String::from_str("https://")
    } else {
        String::from_str("http://")
    };
    s.append(canister_text);
    if in_production {
        s.append(".raw.ic0.app/asset/");
    } else {
        s.append(".localhost:8080/asset/");
    }
    s.append(digits.as_str());
    s
}

/// The path's suffix after its last `/`, or the whole path where it has
/// none.
pub open spec fn after_last_slash(s: Seq<char>) -> Seq<char>
    decreases s.len(),
{
    if s.len() == 0 {
        s
    } else if s.last() == '/' {
        Seq::empty()
    } else {
        after_last_slash(s.drop_last()).push(s.last())
    }
}

/// The segment's prefix before its first `?`, or the whole segment where
/// it has none.
pub open spec fn before_first_query(s: Seq<char>) -> Seq<char>
    decreases s.len(),
{
    if s.len() == 0 {
        s
    } else if s.first() == '?' {
        Seq::empty()
    } else {
        seq![s.first()] + before_first_query(s.drop_first())
    }
}

/// The asset identifier a request path stands for: the decimal value of
/// its final segment, query string stripped; nothing where that segment
/// is empty, not all digits, or too large.
pub open spec fn spec_parse_asset_id(url: Seq<char>) -> Option<u128> {
    let seg = before_first_query(after_last_slash(url));
    if seg.len() > 0 && all_digits(seg) && dec_val(seg) <= u128::MAX {
        Some(dec_val(seg) as u128)
    } else {
        None
    }
}

/// Where no `/` stands at or after `start` and the character just before
/// `start` (if any) is `/`, the suffix after the last slash is exactly
/// the piece from `start` on.
proof fn lemma_after_last_slash_split(s: Seq<char>, start: int)
    requires
        0 <= start <= s.len(),
        forall|k: int| start <= k < s.len() ==> s[k] != '/',
        start > 0 ==> s[start - 1] == '/',
    ensures
        after_last_slash(s) == s.subrange(start, s.len() as int),
    decreases s.len(),
{
    if s.len() == 0 {
        assert(after_last_slash(s) =~= s.subrange(start, s.len() as int));
    } else if s.last() == '/' {
        assert(start == s.len());
        assert(after_last_slash(s) =~= s.subrange(start, s.len() as int));
    } else {
        assert(start < s.len());
        lemma_after_last_slash_split(s.drop_last(), start);
        assert(after_last_slash(s.drop_last()).push(s.last()) =~= s.subrange(
            start,
            s.len() as int,
        ));
    }
}

/// Where no `?` stands before `end` and the character at `end` (if it is
/// not the segment's end) is `?`, the prefix before the first query mark
/// is exactly the piece up to `end`.
proof fn lemma_before_first_query_split(s: Seq<char>, end: int)
    requires
        0 <= end <= s.len(),
        forall|k: int| 0 <= k < end ==> s[k] != '?',
        end < s.len() ==> s[end] == '?',
    ensures
        before_first_query(s) == s.subrange(0, end),
    decreases s.len(),
{
    if s.len() == 0 {
        assert(before_first_query(s) =~= s.subrange(0, end));
    } else if s.first() == '?' {
        assert(end == 0);
        assert(before_first_query(s) =~= s.subrange(0, end));
    } else {
        assert(end >= 1);
        lemma_before_first_query_split(s.drop_first(), end - 1);
        assert(seq![s.first()] + before_first_query(s.drop_first()) =~= s.subrange(0, end));
    }
}

/// Digit strings have non-negative values, and a prefix never exceeds the
/// whole.
proof fn lemma_dec_val_prefix(s: Seq<char>, i: int)
    requires
        all_digits(s),
        0 <= i <= s.len(),
    ensures
        dec_val(s) >= dec_val(s.subrange(0, i)) >= 0,
    decreases s.len() - i,
{
    if i == s.len() {
        assert(s.subrange(0, i) =~= s);
        lemma_dec_val_nonneg(s);
    } else {
        lemma_dec_val_prefix(s, i + 1);
        let t = s.subrange(0, i + 1);
        assert(t.drop_last() =~= s.subrange(0, i));
        lemma_dec_val_nonneg(s.subrange(0, i));
    }
}

/// Digit strings have non-negative values.
proof fn lemma_dec_val_nonneg(s: Seq<char>)
    requires
        all_digits(s),
    ensures
        dec_val(s) >= 0,
    decreases s.len(),
{
    if s.len() == 0 {
    } else {
        assert(all_digits(s.drop_last()));
        lemma_dec_val_nonneg(s.drop_last());
    }
}

/// Extracts the asset identifier from a request path, or nothing where
/// the final segment is not a decimal identifier in range.
pub fn parse_asset_id(url: &str) -> (r: Option<u128>)
    ensures
        r == spec_parse_asset_id(url@),
{
    let n = url.unicode_len();
    let mut start = n;
    while start > 0 && url.get_char(start - 1) != '/'
        invariant
            start <= n,
            n == url@.len(),
            forall|k: int| start <= k < n ==> url@[k] != '/',
        decreases start,
    {
        start = start - 1;
    }
    proof {
        lemma_after_last_slash_split(url@, start as int);
    }
    let mut end = start;
    while end < n && url.get_char(end) != '?'
        invariant
            start <= end <= n,
            n == url@.len(),
            forall|k: int| start <= k < end ==> url@[k] != '?',
        decreases n - end,
    {
        end = end + 1;
    }
    let ghost seg = before_first_query(after_last_slash(url@));
    proof {
        lemma_before_first_query_split(
            url@.subrange(start as int, n as int),
            end - start,
        );
        assert(url@.subrange(start as int, n as int).subrange(0, end - start) =~= url@.subrange(
            start as int,
            end as int,
        ));
        assert(seg == url@.subrange(start as int, end as int));
    }
    if start == end {
        return None;
    }
    let mut val: u128 = 0;
    let mut i = start;
    while i < end
        invariant
            start <= i <= end <= n,
            n == url@.len(),
            seg == before_first_query(after_last_slash(url@)),
            seg == url@.subrange(start as int, end as int),
            seg.len() == end - start,
            forall|k: int| 0 <= k < i - start ==> is_digit(#[trigger] seg[k]),
            val == dec_val(seg.subrange(0, i - start)),
        decreases end - i,
    {
        let c = url.get_char(i);
        let v = c as u32;
        proof {
            assert(0 <= i - start < seg.len());
            assert(seg[i - start] == url@[i as int]);
            assert(seg.subrange(0, i + 1 - start).drop_last() =~= seg.subrange(0, i - start));
            assert(seg.subrange(0, i + 1 - start).last() == seg[i - start]);
        }
        if v < 48 || v > 57 {
            proof {
                assert(!is_digit(seg[i - start]));
                assert(!all_digits(seg));
            }
            return None;
        }
        let d = (v - 48) as u128;
        proof {
            assert(is_digit(seg[i - start]));
            assert(dec_val(seg.subrange(0, i + 1 - start)) == val * 10 + d);
        }
        if val > (u128::MAX - d) / 10 {
            proof {
                assert(val * 10 + d > u128::MAX) by (nonlinear_arith)
                    requires
                        val > (u128::MAX - d) / 10,
                        d <= 9,
                ;
                if all_digits(seg) && dec_val(seg) <= u128::MAX {
                    lemma_dec_val_prefix(seg, i + 1 - start);
                    assert(false);
                }
                assert(spec_parse_asset_id(url@) is None);
            }
            return None;
        }
        proof {
            assert(val * 10 + d <= u128::MAX) by (nonlinear_arith)
                requires
                    val <= (u128::MAX - d) / 10,
                    d <= 9,
            ;
        }
        val = val * 10 + d;
        i = i + 1;
    }
    proof {
        assert(seg.subrange(0, end - start) =~= seg);
        assert(all_digits(seg));
    }
    Some(val)
}

/// Extracts the asset identifier from a request path whose final segment
/// is known to be a decimal identifier in range.
pub fn get_asset_id(url: &String) -> (r: u128)
    requires
        spec_parse_asset_id(url@) is Some,
    ensures
        Some(r) == spec_parse_asset_id(url@),
{
    parse_asset_id(url.as_str()).unwrap()
}

} // verus!
