//! Small string facilities shared by the catalog, collection and decklist code.

use vstd::prelude::*;

verus! {

/// Whether two string slices hold the same characters.
pub(crate) fn str_eq(a: &str, b: &str) -> (res: bool)
    ensures
        res == (a@ == b@),
{
    let x = chars_of(a);
    let y = chars_of(b);
    if x.len() != y.len() {
        return false;
    }
    let mut i: usize = 0;
    while i < x.len()
        invariant
            i <= x.len(),
            x.len() == y.len(),
            x@ == a@,
            y@ == b@,
            forall|k: int| 0 <= k < i ==> x@[k] == y@[k],
        decreases x.len() - i,
    {
        if x[i] != y[i] {
            assert(a@[i as int] != b@[i as int]);
            return false;
        }
        i += 1;
    }
    assert(x@ =~= y@);
    true
}

/// Appends one character to a string (`String::push`).
#[verifier::external_body]
pub(crate) fn push_char(s: &mut String, c: char)
    ensures
        final(s)@ == old(s)@.push(c),
{
    s.push(c)
}

/// The characters of a string slice, in order.
pub fn chars_of(s: &str) -> (res: Vec<char>)
    ensures
        res@ == s@,
{
    broadcast use vstd::string::group_string_axioms;
    let mut out: Vec<char> = Vec::new();
    for c in it: s.chars()
        invariant
            it.seq() == s@,
            out@ == it.seq().take(it.index() as int),
    {
        out.push(c);
    }
    out
}

/// A string made of the given characters, in order.
pub fn string_of(chars: &Vec<char>) -> (res: String)
    ensures
        res@ == chars@,
{
    let mut out = String::new();
    let mut i: usize = 0;
    while i < chars.len()
        invariant
            i <= chars.len(),
            out@ == chars@.take(i as int),
        decreases chars.len() - i,
    {
        push_char(&mut out, chars[i]);
        i += 1;
    }
    out
}

} // verus!

verus! {

/// The ASCII digit for `d`, which is below ten.
pub open spec fn digit_char(d: nat) -> char {
    ((d + 48) as u8) as char
}

/// Decimal digits of a natural number, most significant first, with no leading zero.
pub open spec fn nat_decimal(n: nat) -> Seq<char>
    decreases n,
{
    if n < 10 {
        seq![digit_char(n)]
    } else {
        nat_decimal(n / 10).push(digit_char(n % 10))
    }
}

/// Decimal text of an integer, as `Display` writes it: a minus sign before negative values.
pub open spec fn int_decimal(n: int) -> Seq<char> {
    if n < 0 {
        seq!['-'] + nat_decimal((-n) as nat)
    } else {
        nat_decimal(n as nat)
    }
}

fn digit(d: u64) -> (c: char)
    requires
        d < 10,
    ensures
        c == digit_char(d as nat),
{
    let b: u8 = (d as u8) + 48u8;
    b as char
}

fn push_decimal(out: &mut String, n: u64)
    ensures
        final(out)@ == old(out)@ + nat_decimal(n as nat),
    decreases n,
{
    if n >= 10 {
        push_decimal(out, n / 10);
    }
    push_char(out, digit(n % 10));
    proof {
        if n >= 10 {
            assert(old(out)@ + nat_decimal(n as nat) =~= old(out)@ + nat_decimal((n / 10) as nat)
                + seq![digit_char((n % 10) as nat)]);
        } else {
            assert(nat_decimal(n as nat) =~= seq![digit_char(n as nat)]);
        }
    }
}

/// Decimal text of an `i64`, as `to_string` gives it.
pub fn i64_to_decimal(n: i64) -> (res: String)
    ensures
        res@ == int_decimal(n as int),
{
    let mut out = String::new();
    if n < 0 {
        push_char(&mut out, '-');
        let magnitude: u64 = (0i128 - (n as i128)) as u64;
        push_decimal(&mut out, magnitude);
    } else {
        push_decimal(&mut out, n as u64);
    }
    out
}

/// Decimal text of a `usize`, as `to_string` gives it.
pub fn usize_to_decimal(n: usize) -> (res: String)
    ensures
        res@ == nat_decimal(n as nat),
{
    let mut out = String::new();
    push_decimal(&mut out, n as u64);
    out
}

/// Decimal text of a `u32`, as `to_string` gives it.
pub fn u32_to_decimal(n: u32) -> (res: String)
    ensures
        res@ == nat_decimal(n as nat),
{
    let mut out = String::new();
    push_decimal(&mut out, n as u64);
    out
}

pub open spec fn is_ascii_digit(c: char) -> bool {
    '0' <= c && c <= '9'
}

pub open spec fn all_ascii_digits(s: Seq<char>) -> bool {
    forall|i: int| 0 <= i < s.len() ==> is_ascii_digit(#[trigger] s[i])
}

/// The value of a run of ASCII digits, read most significant first.
pub open spec fn digits_value(s: Seq<char>) -> nat
    decreases s.len(),
{
    if s.len() == 0 {
        0
    } else {
        digits_value(s.drop_last()) * 10 + ((s.last() as u32) - 48) as nat
    }
}

/// The digits that `u32::from_str` reads: the text after one optional leading `+`.
pub open spec fn unsigned_digits(s: Seq<char>) -> Seq<char> {
    if s.len() > 0 && s[0] == '+' {
        s.drop_first()
    } else {
        s
    }
}

/// What `str::parse::<u32>` accepts: an optional `+`, then one or more ASCII
/// digits whose value fits in a `u32`.
pub open spec fn parses_as_u32(s: Seq<char>) -> Option<u32> {
    let d = unsigned_digits(s);
    if d.len() > 0 && all_ascii_digits(d) && digits_value(d) <= u32::MAX {
        Some(digits_value(d) as u32)
    } else {
        None
    }
}

proof fn lemma_digits_value_prefix(s: Seq<char>, i: int)
    requires
        0 <= i < s.len(),
        all_ascii_digits(s),
    ensures
        digits_value(s.take(i + 1)) == digits_value(s.take(i)) * 10 + ((s[i] as u32) - 48) as nat,
{
    assert(s.take(i + 1).drop_last() =~= s.take(i));
}

proof fn lemma_digits_value_grows(s: Seq<char>, i: int, j: int)
    requires
        0 <= i <= j <= s.len(),
        all_ascii_digits(s),
    ensures
        digits_value(s.take(i)) <= digits_value(s.take(j)),
    decreases j - i,
{
    if i < j {
        lemma_digits_value_grows(s, i, j - 1);
        lemma_digits_value_prefix(s, j - 1);
    }
}

/// Parses an unsigned decimal number as `str::parse::<u32>` does.
pub fn parse_u32(s: &str) -> (res: Option<u32>)
    ensures
        res == parses_as_u32(s@),
{
    let chars = chars_of(s);
    let start: usize = if chars.len() > 0 && chars[0] == '+' { 1 } else { 0 };
    let ghost d = unsigned_digits(s@);
    assert(d =~= chars@.skip(start as int));
    if start >= chars.len() {
        return None;
    }
    let mut acc: u64 = 0;
    let mut i: usize = start;
    while i < chars.len()
        invariant
            start <= i <= chars.len(),
            chars@ == s@,
            d == chars@.skip(start as int),
            d == unsigned_digits(s@),
            d.len() > 0,
            all_ascii_digits(d.take(i - start)),
            acc == digits_value(d.take(i - start)),
            acc <= u32::MAX,
        decreases chars.len() - i,
    {
        let c = chars[i];
        if !('0' <= c && c <= '9') {
            assert(d[i - start] == c);
            assert(!is_ascii_digit(d[i - start]));
            assert(!all_ascii_digits(d));
            return None;
        }
        let v: u64 = (c as u32 - 48) as u64;
        proof {
            assert(d[i - start] == c);
            assert(d.take(i - start + 1).drop_last() =~= d.take(i - start));
            assert(all_ascii_digits(d.take(i - start + 1)));
        }
        acc = acc * 10 + v;
        i += 1;
        if acc > 0xffff_ffffu64 {
            proof {
                if all_ascii_digits(d) {
                    assert(d.take(i - start) =~= d.take(i - start));
                    assert(d.take(d.len() as int) =~= d);
                    assert forall|k: int| 0 <= k < d.len() implies is_ascii_digit(#[trigger] d[k]) by {}
                    lemma_digits_value_grows(d, (i - start) as int, d.len() as int);
                }
            }
            return None;
        }
    }
    assert(d.take(d.len() as int) =~= d);
    Some(acc as u32)
}

} // verus!

verus! {

/// What `str::to_lowercase` returns for a string (Unicode lowercase mapping).
pub uninterp spec fn lowercase_of(s: Seq<char>) -> Seq<char>;

/// What `char::is_alphanumeric` returns for a character (Unicode Alphabetic or Numeric).
pub uninterp spec fn char_is_alphanumeric(c: char) -> bool;

pub open spec fn is_ascii_char(c: char) -> bool {
    (c as u32) < 128
}

pub open spec fn is_ascii_text(s: Seq<char>) -> bool {
    forall|i: int| 0 <= i < s.len() ==> is_ascii_char(#[trigger] s[i])
}

pub open spec fn ascii_lower_char(c: char) -> char {
    if 'A' <= c && c <= 'Z' {
        ((c as u32) + 32) as char
    } else {
        c
    }
}

pub open spec fn ascii_lower(s: Seq<char>) -> Seq<char> {
    Seq::new(s.len(), |i: int| ascii_lower_char(s[i]))
}

pub open spec fn is_ascii_alphanumeric(c: char) -> bool {
    ||| ('a' <= c && c <= 'z')
    ||| ('A' <= c && c <= 'Z')
    ||| ('0' <= c && c <= '9')
}

/// `str::to_lowercase`. The result is named by `lowercase_of`; on ASCII text the
/// mapping is the ASCII one (`A`..`Z` to `a`..`z`, every other character kept),
/// as the standard library documents. Nothing is stated of other characters.
#[verifier::external_body]
pub(crate) fn to_lowercase(s: &str) -> (res: String)
    ensures
        res@ == lowercase_of(s@),
        is_ascii_text(s@) ==> res@ == ascii_lower(s@),
{
    s.to_lowercase()
}

/// `char::is_alphanumeric`. The result is named by `char_is_alphanumeric`; on an
/// ASCII character it holds exactly for letters and digits.
#[verifier::external_body]
pub(crate) fn is_alphanumeric(c: char) -> (res: bool)
    ensures
        res == char_is_alphanumeric(c),
        is_ascii_char(c) ==> (res == is_ascii_alphanumeric(c)),
{
    c.is_alphanumeric()
}

} // verus!

verus! {

/// The decimal text of a natural number is a nonempty run of digits that reads back as the number.
pub proof fn lemma_nat_decimal_reads_back(n: nat)
    ensures
        nat_decimal(n).len() > 0,
        all_ascii_digits(nat_decimal(n)),
        digits_value(nat_decimal(n)) == n,
    decreases n,
{
    if n < 10 {
        let s = nat_decimal(n);
        assert(s.drop_last() =~= Seq::<char>::empty());
        assert(digits_value(Seq::<char>::empty()) == 0);
        assert((((n + 48) as u8) as char) as u32 == n + 48);
        assert(s.last() == digit_char(n));
        assert(digits_value(s) == digits_value(s.drop_last()) * 10 + ((s.last() as u32) - 48) as nat);
    } else {
        lemma_nat_decimal_reads_back(n / 10);
        let s = nat_decimal(n);
        assert(s.drop_last() =~= nat_decimal(n / 10));
        let d = (n % 10) as nat;
        assert((((d + 48) as u8) as char) as u32 == d + 48);
        assert(s.last() == digit_char(d));
        assert(digits_value(s) == digits_value(nat_decimal(n / 10)) * 10 + d);
        assert forall|i: int| 0 <= i < s.len() implies is_ascii_digit(#[trigger] s[i]) by {
            if i < s.len() - 1 {
                assert(s[i] == nat_decimal(n / 10)[i]);
            }
        }
    }
}

/// Different integers have different decimal texts.
pub proof fn lemma_int_decimal_injective(a: int, b: int)
    requires
        int_decimal(a) == int_decimal(b),
    ensures
        a == b,
{
    if a < 0 {
        lemma_nat_decimal_reads_back((-a) as nat);
        if b < 0 {
            lemma_nat_decimal_reads_back((-b) as nat);
            assert(int_decimal(a).drop_first() =~= nat_decimal((-a) as nat));
            assert(int_decimal(b).drop_first() =~= nat_decimal((-b) as nat));
        } else {
            lemma_nat_decimal_reads_back(b as nat);
            assert(int_decimal(a)[0] == '-');
            assert(is_ascii_digit(nat_decimal(b as nat)[0]));
        }
    } else {
        lemma_nat_decimal_reads_back(a as nat);
        if b < 0 {
            assert(int_decimal(b)[0] == '-');
            assert(is_ascii_digit(nat_decimal(a as nat)[0]));
        } else {
            lemma_nat_decimal_reads_back(b as nat);
        }
    }
}

} // verus!

verus! {

pub open spec fn has_prefix(s: Seq<char>, p: Seq<char>) -> bool {
    p.len() <= s.len() && s.take(p.len() as int) == p
}

/// `str::starts_with` for a string pattern.
pub fn starts_with(s: &str, p: &str) -> (res: bool)
    ensures
        res == has_prefix(s@, p@),
{
    let sc = chars_of(s);
    let pc = chars_of(p);
    if pc.len() > sc.len() {
        return false;
    }
    let mut i: usize = 0;
    while i < pc.len()
        invariant
            i <= pc.len() <= sc.len(),
            sc@ == s@,
            pc@ == p@,
            forall|k: int| 0 <= k < i ==> sc@[k] == pc@[k],
        decreases pc.len() - i,
    {
        if sc[i] != pc[i] {
            assert(s@.take(p@.len() as int)[i as int] != p@[i as int]);
            return false;
        }
        i += 1;
    }
    assert(s@.take(p@.len() as int) =~= p@);
    true
}

/// Every non-overlapping occurrence of `pat`, scanning from the left, replaced by `with`.
pub open spec fn replace_all(s: Seq<char>, pat: Seq<char>, with: Seq<char>) -> Seq<char>
    decreases s.len(),
{
    if pat.len() == 0 || s.len() == 0 {
        s
    } else if has_prefix(s, pat) {
        with + replace_all(s.skip(pat.len() as int), pat, with)
    } else {
        seq![s[0]] + replace_all(s.drop_first(), pat, with)
    }
}

fn matches_at(s: &Vec<char>, i: usize, pat: &Vec<char>) -> (res: bool)
    requires
        i <= s.len(),
    ensures
        res == has_prefix(s@.skip(i as int), pat@),
{
    if pat.len() > s.len() - i {
        return false;
    }
    let mut k: usize = 0;
    while k < pat.len()
        invariant
            k <= pat.len(),
            pat.len() <= s.len() - i,
            i <= s.len(),
            forall|j: int| 0 <= j < k ==> s@[i + j] == pat@[j],
        decreases pat.len() - k,
    {
        if s[i + k] != pat[k] {
            assert(s@.skip(i as int).take(pat@.len() as int)[k as int] != pat@[k as int]);
            return false;
        }
        k += 1;
    }
    assert(s@.skip(i as int).take(pat@.len() as int) =~= pat@);
    true
}

/// `str::replace` with a nonempty string pattern.
pub fn replace(s: &str, pat: &str, with: &str) -> (res: String)
    requires
        pat@.len() > 0,
    ensures
        res@ == replace_all(s@, pat@, with@),
{
    let sc = chars_of(s);
    let pc = chars_of(pat);
    let wc = chars_of(with);
    let mut out: Vec<char> = Vec::new();
    let mut i: usize = 0;
    assert(sc@.skip(0) =~= sc@);
    while i < sc.len()
        invariant
            i <= sc.len(),
            sc@ == s@,
            pc@ == pat@,
            wc@ == with@,
            pc@.len() > 0,
            replace_all(s@, pat@, with@) == out@ + replace_all(sc@.skip(i as int), pat@, with@),
        decreases sc.len() - i,
    {
        let ghost rest = sc@.skip(i as int);
        if matches_at(&sc, i, &pc) {
            let mut k: usize = 0;
            let ghost before = out@;
            while k < wc.len()
                invariant
                    k <= wc.len(),
                    out@ == before + wc@.take(k as int),
                decreases wc.len() - k,
            {
                out.push(wc[k]);
                k += 1;
                assert(wc@.take(k as int) =~= wc@.take(k - 1).push(wc@[k - 1]));
            }
            assert(wc@.take(wc.len() as int) =~= wc@);
            assert(rest.skip(pc@.len() as int) =~= sc@.skip(i + pc.len()));
            assert(out@ + replace_all(sc@.skip(i + pc.len()), pat@, with@) =~= before + replace_all(rest, pat@, with@));
            i = i + pc.len();
        } else {
            let ghost before = out@;
            out.push(sc[i]);
            assert(rest.drop_first() =~= sc@.skip(i + 1));
            assert(out@ + replace_all(sc@.skip(i + 1), pat@, with@) =~= before + replace_all(rest, pat@, with@));
            i += 1;
        }
    }
    assert(sc@.skip(sc.len() as int) =~= Seq::<char>::empty());
    assert(out@ =~= out@ + replace_all(sc@.skip(i as int), pat@, with@));
    string_of(&out)
}

} // verus!

verus! {

/// A key that packs two strings into one: the length of the first in decimal,
/// a `:`, then both strings. No two pairs share a key.
pub open spec fn pair_key_of(a: Seq<char>, b: Seq<char>) -> Seq<char> {
    nat_decimal(a.len()) + seq![':'] + a + b
}

/// Two pairs with the same key are the same pair.
pub proof fn lemma_pair_key_injective(a1: Seq<char>, b1: Seq<char>, a2: Seq<char>, b2: Seq<char>)
    requires
        pair_key_of(a1, b1) == pair_key_of(a2, b2),
    ensures
        a1 == a2,
        b1 == b2,
{
    let k = pair_key_of(a1, b1);
    let d1 = nat_decimal(a1.len());
    let d2 = nat_decimal(a2.len());
    lemma_nat_decimal_reads_back(a1.len());
    lemma_nat_decimal_reads_back(a2.len());
    assert(k[d1.len() as int] == ':');
    assert(k[d2.len() as int] == ':');
    if d1.len() < d2.len() {
        assert(k[d1.len() as int] == d2[d1.len() as int]);
        assert(is_ascii_digit(d2[d1.len() as int]));
    } else if d2.len() < d1.len() {
        assert(k[d2.len() as int] == d1[d2.len() as int]);
        assert(is_ascii_digit(d1[d2.len() as int]));
    }
    assert(d1 =~= k.take(d1.len() as int));
    assert(d2 =~= k.take(d2.len() as int));
    assert(a1.len() == a2.len());
    let start: int = d1.len() as int + 1;
    assert(a1 =~= k.subrange(start, start + a1.len()));
    assert(a2 =~= k.subrange(start, start + a2.len()));
    assert(b1 =~= k.skip(start + a1.len()));
    assert(b2 =~= k.skip(start + a2.len()));
}

fn push_str_chars(out: &mut String, s: &str)
    ensures
        final(out)@ == old(out)@ + s@,
{
    out.append(s);
}

/// The key `pair_key_of(a, b)` as a string.
pub fn pair_key(a: &str, b: &str) -> (key: String)
    ensures
        key@ == pair_key_of(a@, b@),
{
    let n = a.unicode_len();
    let mut key = String::new();
    push_decimal(&mut key, n as u64);
    push_char(&mut key, ':');
    push_str_chars(&mut key, a);
    push_str_chars(&mut key, b);
    proof {
        assert(key@ =~= pair_key_of(a@, b@));
    }
    key
}

} // verus!

verus! {

/// The first position at or after `i` where `pat` occurs in `s`.
pub open spec fn find_from(s: Seq<char>, pat: Seq<char>, i: int) -> Option<int>
    decreases s.len() - i,
{
    if i < 0 || i + pat.len() > s.len() {
        None
    } else if has_prefix(s.skip(i), pat) {
        Some(i)
    } else if i >= s.len() {
        None
    } else {
        find_from(s, pat, i + 1)
    }
}

/// What `find_from` finds is an occurrence of the pattern at or after the start.
pub proof fn lemma_find_from(s: Seq<char>, pat: Seq<char>, i: int, k: int)
    requires
        find_from(s, pat, i) == Some(k),
    ensures
        i <= k,
        k + pat.len() <= s.len(),
        has_prefix(s.skip(k), pat),
    decreases s.len() - i,
{
    if !(i < 0 || i + pat.len() > s.len()) && !has_prefix(s.skip(i), pat) && i < s.len() {
        lemma_find_from(s, pat, i + 1, k);
    }
}

/// The part of `s` after the first occurrence of `pat`, up to the next one:
/// the second piece that `str::split` yields, when there is one.
pub open spec fn second_piece(s: Seq<char>, pat: Seq<char>) -> Option<Seq<char>> {
    match find_from(s, pat, 0) {
        Some(i) => {
            let after = s.skip(i + pat.len());
            Some(
                match find_from(after, pat, 0) {
                    Some(j) => after.take(j),
                    None => after,
                },
            )
        },
        None => None,
    }
}

/// `s` with every trailing `c` removed.
pub open spec fn trim_end_char(s: Seq<char>, c: char) -> Seq<char>
    decreases s.len(),
{
    if s.len() > 0 && s.last() == c {
        trim_end_char(s.drop_last(), c)
    } else {
        s
    }
}

/// `s` up to its first `c`, or all of it.
pub open spec fn before_char(s: Seq<char>, c: char) -> Seq<char> {
    match find_from(s, seq![c], 0) {
        Some(j) => s.take(j),
        None => s,
    }
}

/// The first position at or after `from` where `pat` occurs in `s`.
pub fn find_in(s: &Vec<char>, pat: &Vec<char>, from: usize) -> (res: Option<usize>)
    requires
        from <= s.len(),
    ensures
        match res {
            Some(i) => find_from(s@, pat@, from as int) == Some(i as int),
            None => find_from(s@, pat@, from as int) is None,
        },
{
    let mut i = from;
    while i <= s.len()
        invariant
            from <= i <= s.len() + 1,
            find_from(s@, pat@, from as int) == find_from(s@, pat@, i as int),
        decreases s.len() + 1 - i,
    {
        if pat.len() > s.len() - i {
            return None;
        }
        if matches_at(s, i, pat) {
            return Some(i);
        }
        if i == s.len() {
            return None;
        }
        i += 1;
    }
    None
}

/// The characters of `s` from `start` to `end`.
pub fn slice_chars(s: &Vec<char>, start: usize, end: usize) -> (res: Vec<char>)
    requires
        start <= end <= s.len(),
    ensures
        res@ == s@.subrange(start as int, end as int),
{
    let mut out: Vec<char> = Vec::new();
    let mut i = start;
    while i < end
        invariant
            start <= i <= end <= s.len(),
            out@ == s@.subrange(start as int, i as int),
        decreases end - i,
    {
        out.push(s[i]);
        i += 1;
        assert(out@ =~= s@.subrange(start as int, i as int));
    }
    out
}

/// `second_piece` over characters.
pub fn second_piece_of(s: &Vec<char>, pat: &Vec<char>) -> (res: Option<Vec<char>>)
    ensures
        match res {
            Some(p) => second_piece(s@, pat@) == Some(p@),
            None => second_piece(s@, pat@) is None,
        },
{
    match find_in(s, pat, 0) {
        Some(i) => {
            proof {
                assert(find_from(s@, pat@, 0) == Some(i as int));
                lemma_find_from(s@, pat@, 0, i as int);
                assert(i + pat@.len() <= s@.len());
                assert(s@.len() == s.len());
                assert(pat@.len() == pat.len());
                assert(i + pat.len() <= s.len());
            }
            let start = i + pat.len();
            let after = slice_chars(s, start, s.len());
            assert(after@ =~= s@.skip(start as int));
            match find_in(&after, pat, 0) {
                Some(j) => {
                    proof {
                        lemma_find_from(after@, pat@, 0, j as int);
                    }
                    let piece = slice_chars(&after, 0, j);
                    assert(piece@ =~= after@.take(j as int));
                    Some(piece)
                },
                None => Some(after),
            }
        },
        None => None,
    }
}

} // verus!
