//! Text helpers: the few string operations that the graph code needs, with
//! their meaning stated over sequences of characters.
use vstd::prelude::*;

verus! {

/// The character of a single decimal digit.
pub open spec fn digit_char(d: nat) -> char {
    (d + 48) as char
}

/// The decimal digits of `n`, most significant first, without leading zeros.
pub open spec fn decimal(n: nat) -> Seq<char>
    decreases n,
{
    if n < 10 {
        seq![digit_char(n)]
    } else {
        decimal(n / 10).push(digit_char(n % 10))
    }
}

/// The character of a single lower-case hexadecimal digit.
pub open spec fn hex_char(d: nat) -> char {
    if d < 10 {
        (d + 48) as char
    } else {
        (d + 87) as char
    }
}

/// The lowest `count` hexadecimal digits of `v`, most significant first.
pub open spec fn hex_digits(v: nat, count: nat) -> Seq<char>
    decreases count,
{
    if count == 0 {
        Seq::empty()
    } else {
        hex_digits(v / 16, (count - 1) as nat).push(hex_char(v % 16))
    }
}

/// The canonical text of a 128-bit identifier: 32 lower-case hexadecimal
/// digits in five groups of 8, 4, 4, 4 and 12, joined by hyphens.
pub open spec fn hyphenated(id: u128) -> Seq<char> {
    let digits = hex_digits(id as nat, 32);
    digits.subrange(0, 8) + seq!['-'] + digits.subrange(8, 12) + seq!['-'] + digits.subrange(
        12,
        16,
    ) + seq!['-'] + digits.subrange(16, 20) + seq!['-'] + digits.subrange(20, 32)
}

/// `texts` one after the other, with `separator` between each two.
pub open spec fn joined_with(texts: Seq<Seq<char>>, separator: Seq<char>) -> Seq<char>
    decreases texts.len(),
{
    if texts.len() == 0 {
        Seq::empty()
    } else if texts.len() == 1 {
        texts[0]
    } else {
        joined_with(texts.drop_last(), separator) + separator + texts.last()
    }
}

/// `s` with every occurrence of `from` turned into `to`.
pub open spec fn replace_char(s: Seq<char>, from: char, to: char) -> Seq<char> {
    Seq::new(s.len(), |i: int| if s[i] == from { to } else { s[i] })
}

/// The name under which a function appears as a node of a diagram: its
/// identifier's canonical text with underscores in place of hyphens.
pub open spec fn node_name(id: u128) -> Seq<char> {
    replace_char(hyphenated(id), '-', '_')
}

/// The text of a truth value.
pub open spec fn bool_text(b: bool) -> Seq<char> {
    if b {
        "true"@
    } else {
        "false"@
    }
}

/// The lower-case form of a text, as `str::to_lowercase` gives it.
pub uninterp spec fn lowercase_of(s: Seq<char>) -> Seq<char>;

/// Turns a text into lower case with `str::to_lowercase`.
#[verifier::external_body]
pub(crate) fn lowercase(s: &str) -> (lower: String)
    ensures
        lower@ == lowercase_of(s@),
{
    s.to_lowercase()
}

/// The file name of a path, as `std::path::Path::file_name` gives it on
/// this machine, where it is valid text. Nothing is said of the result: the
/// rules of paths differ between machines.
#[verifier::external_body]
pub(crate) fn file_name_of(path: &str) -> (name: Option<String>) {
    std::path::Path::new(path).file_name().and_then(|n| n.to_str()).map(|n| n.to_string())
}

/// Compares two string slices with `str`'s own `==`, which holds exactly when
/// both hold the same characters.
#[verifier::external_body]
pub(crate) fn str_eq(a: &str, b: &str) -> (same: bool)
    ensures
        same == (a@ == b@),
{
    a == b
}

/// Appends one character with `String::push`.
#[verifier::external_body]
pub(crate) fn push_char(s: &mut String, c: char)
    ensures
        final(s)@ == old(s)@.push(c),
{
    s.push(c)
}

/// The character of the decimal digit `d`.
pub fn digit_of(d: u8) -> (c: char)
    requires
        d < 10,
    ensures
        c == digit_char(d as nat),
{
    (48 + d) as char
}

/// The decimal digits of `n`, most significant first.
pub fn usize_text(n: usize) -> (text: String)
    ensures
        text@ == decimal(n as nat),
    decreases n,
{
    if n < 10 {
        let mut text = String::new();
        push_char(&mut text, digit_of(n as u8));
        assert(text@ =~= seq![digit_char(n as nat)]);
        text
    } else {
        let mut text = usize_text(n / 10);
        push_char(&mut text, digit_of((n % 10) as u8));
        text
    }
}

/// Formats an identifier with `uuid::Uuid`'s `Display`, which writes the
/// big-endian value in lower-case hyphenated form.
#[verifier::external_body]
pub(crate) fn uuid_text(id: u128) -> (text: String)
    ensures
        text@ == hyphenated(id),
{
    uuid::Uuid::from_u128(id).to_string()
}

/// The views of a list of texts.
pub open spec fn views_of(texts: Seq<String>) -> Seq<Seq<char>> {
    Seq::new(texts.len(), |i: int| texts[i]@)
}

/// `texts` one after the other, with `separator` between each two.
pub fn join_with(texts: &Vec<String>, separator: &str) -> (out: String)
    ensures
        out@ == joined_with(views_of(texts@), separator@),
{
    let mut out = String::new();
    let ghost all = views_of(texts@);
    let mut i: usize = 0;
    proof {
        assert(all.take(0) =~= Seq::<Seq<char>>::empty());
        assert(out@ =~= joined_with(all.take(0), separator@));
    }
    while i < texts.len()
        invariant
            i <= texts@.len(),
            all == views_of(texts@),
            all.len() == texts@.len(),
            out@ == joined_with(all.take(i as int), separator@),
        decreases texts@.len() - i,
    {
        let ghost held = out@;
        proof {
            assert(all.take(i + 1).drop_last() =~= all.take(i as int));
            assert(all.take(i + 1).last() == texts@[i as int]@);
        }
        if i > 0 {
            out.append(separator);
        }
        out.append(texts[i].as_str());
        proof {
            if i == 0 {
                assert(held =~= Seq::<char>::empty());
                assert(all.take(1)[0] == texts@[0]@);
                assert(out@ =~= joined_with(all.take(1), separator@));
            }
        }
        i += 1;
    }
    proof {
        assert(all.take(all.len() as int) =~= all);
    }
    out
}

/// Copies `s`, turning every `from` into `to`.
pub fn replace_char_in(s: &str, from: char, to: char) -> (out: String)
    ensures
        out@ == replace_char(s@, from, to),
{
    let n = s.unicode_len();
    let mut out = String::new();
    let mut i: usize = 0;
    while i < n
        invariant
            n == s@.len(),
            i <= n,
            out@ == replace_char(s@, from, to).take(i as int),
        decreases n - i,
    {
        let c = s.get_char(i);
        let d = if c == from { to } else { c };
        push_char(&mut out, d);
        i += 1;
        assert(out@ == replace_char(s@, from, to).take(i as int));
    }
    assert(out@ == replace_char(s@, from, to));
    out
}

/// The diagram node name of the function with identifier `id`.
pub fn node_name_of(id: u128) -> (out: String)
    ensures
        out@ == node_name(id),
{
    let text = uuid_text(id);
    replace_char_in(text.as_str(), '-', '_')
}

/// The text of a truth value: `true` or `false`.
pub fn bool_text_of(b: bool) -> (out: String)
    ensures
        out@ == bool_text(b),
{
    if b {
        String::from_str("true")
    } else {
        String::from_str("false")
    }
}

} // verus!
