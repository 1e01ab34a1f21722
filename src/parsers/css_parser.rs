//! Extraction of the font URLs that the `@font-face` rules of a style sheet
//! declare.
//!
//! The text is read with its whitespace removed. A block is what stands
//! between `@font-face{` and the next `}`; a declaration of a block ends at
//! the next `;`; in a declaration that mentions `src`, an alternative ends at
//! the next `,`; and in an alternative every `url(` up to the next `)` gives
//! one URL, with its quote characters removed. A `;` or `,` inside such a
//! `url(...)` is part of the URL and separates nothing.

use vstd::prelude::*;
use vstd::utf8::{decode_utf8, valid_utf8};

use crate::text::{chars_of, decode_utf8_bytes, is_white_space, is_whitespace, string_of};

verus! {

/// Why no font URL could be taken from a style sheet.
#[derive(Debug, Clone, Copy, PartialEq, Eq, Structural)]
pub enum ExtractError {
    /// The bytes are not UTF-8.
    Encoding,
    /// The text holds no `@font-face` block.
    NoFontFace,
    /// The `@font-face` blocks declare no URL.
    NoUrls,
}

/// Whether `pat` occurs in `s` at position `i`.
pub open spec fn occurs_at(s: Seq<char>, pat: Seq<char>, i: int) -> bool {
    0 <= i && i + pat.len() <= s.len() && s.subrange(i, i + pat.len()) == pat
}

/// The first position at or after `i` where `pat` occurs in `s`.
pub open spec fn find_from(s: Seq<char>, pat: Seq<char>, i: int) -> Option<int>
    decreases s.len() + 1 - i,
{
    if i < 0 || i + pat.len() > s.len() {
        None
    } else if occurs_at(s, pat, i) {
        Some(i)
    } else {
        find_from(s, pat, i + 1)
    }
}

pub proof fn lemma_find_from_bounds(s: Seq<char>, pat: Seq<char>, i: int)
    ensures
        find_from(s, pat, i) matches Some(p) ==> i <= p && p + pat.len() <= s.len() && occurs_at(s, pat, p),
    decreases s.len() + 1 - i,
{
    if !(i < 0 || i + pat.len() > s.len()) && !occurs_at(s, pat, i) {
        lemma_find_from_bounds(s, pat, i + 1);
    }
}

/// The text that opens a block.
pub open spec fn font_face_open() -> Seq<char> {
    seq!['@', 'f', 'o', 'n', 't', '-', 'f', 'a', 'c', 'e', '{']
}

/// The text that opens a URL.
pub open spec fn url_open() -> Seq<char> {
    seq!['u', 'r', 'l', '(']
}

/// The word that marks a source declaration.
pub open spec fn src_word() -> Seq<char> {
    seq!['s', 'r', 'c']
}

/// `s` without its whitespace.
pub open spec fn without_whitespace(s: Seq<char>) -> Seq<char> {
    s.filter(|c: char| !is_white_space(c))
}

/// `s` without its quote characters.
pub open spec fn without_quotes(s: Seq<char>) -> Seq<char> {
    s.filter(|c: char| c != '"' && c != '\'')
}

/// The URLs of the alternative `a` from position `i` on.
pub open spec fn urls_from(a: Seq<char>, i: int) -> Seq<Seq<char>>
    decreases a.len() - i,
    via urls_from_decreases
{
    match find_from(a, url_open(), i) {
        None => seq![],
        Some(p) => match find_from(a, seq![')'], p + 4) {
            None => seq![],
            Some(q) => seq![without_quotes(a.subrange(p + 4, q))] + urls_from(a, q + 1),
        },
    }
}

#[via_fn]
proof fn urls_from_decreases(a: Seq<char>, i: int) {
    lemma_find_from_bounds(a, url_open(), i);
    if let Some(p) = find_from(a, url_open(), i) {
        lemma_find_from_bounds(a, seq![')'], p + 4);
    }
}

/// Where the `url(...)` that opens at `i` in `s` closes, if `url(` stands
/// there and a `)` follows.
pub open spec fn url_token_end(s: Seq<char>, i: int) -> Option<int> {
    if occurs_at(s, url_open(), i) {
        find_from(s, seq![')'], i + 4)
    } else {
        None
    }
}

/// The first position at or after `i` where `sep` stands in `s` outside any
/// `url(...)`.
pub open spec fn find_separator(s: Seq<char>, sep: char, i: int) -> Option<int>
    decreases s.len() - i,
    via find_separator_decreases
{
    if i < 0 || i >= s.len() {
        None
    } else {
        match url_token_end(s, i) {
            Some(q) => find_separator(s, sep, q + 1),
            None => if s[i] == sep {
                Some(i)
            } else {
                find_separator(s, sep, i + 1)
            },
        }
    }
}

#[via_fn]
proof fn find_separator_decreases(s: Seq<char>, sep: char, i: int) {
    if occurs_at(s, url_open(), i) {
        lemma_find_from_bounds(s, seq![')'], i + 4);
    }
}

pub proof fn lemma_find_separator_bounds(s: Seq<char>, sep: char, i: int)
    ensures
        find_separator(s, sep, i) matches Some(p) ==> i <= p < s.len() && s[p] == sep,
    decreases s.len() - i,
{
    if !(i < 0 || i >= s.len()) {
        if occurs_at(s, url_open(), i) {
            lemma_find_from_bounds(s, seq![')'], i + 4);
        }
        match url_token_end(s, i) {
            Some(q) => lemma_find_separator_bounds(s, sep, q + 1),
            None => if s[i] != sep {
                lemma_find_separator_bounds(s, sep, i + 1);
            },
        }
    }
}

/// The URLs of the alternatives of the declaration `d` from position `i` on.
pub open spec fn alternatives_urls_from(d: Seq<char>, i: int) -> Seq<Seq<char>>
    decreases d.len() - i,
    via alternatives_urls_from_decreases
{
    match find_separator(d, ',', i) {
        None => urls_from(d.subrange(i, d.len() as int), 0),
        Some(p) => urls_from(d.subrange(i, p), 0) + alternatives_urls_from(d, p + 1),
    }
}

#[via_fn]
proof fn alternatives_urls_from_decreases(d: Seq<char>, i: int) {
    lemma_find_separator_bounds(d, ',', i);
}

/// The URLs of the declaration `d`: those of its alternatives where it
/// mentions `src`, none otherwise.
pub open spec fn declaration_urls(d: Seq<char>) -> Seq<Seq<char>> {
    if find_from(d, src_word(), 0) is Some {
        alternatives_urls_from(d, 0)
    } else {
        seq![]
    }
}

/// The URLs of the declarations of the block body `b` from position `i` on.
pub open spec fn block_urls_from(b: Seq<char>, i: int) -> Seq<Seq<char>>
    decreases b.len() - i,
    via block_urls_from_decreases
{
    match find_separator(b, ';', i) {
        None => declaration_urls(b.subrange(i, b.len() as int)),
        Some(p) => declaration_urls(b.subrange(i, p)) + block_urls_from(b, p + 1),
    }
}

#[via_fn]
proof fn block_urls_from_decreases(b: Seq<char>, i: int) {
    lemma_find_separator_bounds(b, ';', i);
}

/// Where the first block at or after `i` of the stripped text `t` has its
/// body: from just after `@font-face{` to just before the next `}`.
pub open spec fn block_at(t: Seq<char>, i: int) -> Option<(int, int)> {
    match find_from(t, font_face_open(), i) {
        None => None,
        Some(p) => match find_from(t, seq!['}'], p + 11) {
            None => None,
            Some(q) => Some((p + 11, q)),
        },
    }
}

/// The URLs of the blocks of the stripped text `t` from position `i` on.
pub open spec fn blocks_urls_from(t: Seq<char>, i: int) -> Seq<Seq<char>>
    decreases t.len() - i,
    via blocks_urls_from_decreases
{
    match block_at(t, i) {
        None => seq![],
        Some((start, end)) => block_urls_from(t.subrange(start, end), 0) + blocks_urls_from(t, end + 1),
    }
}

#[via_fn]
proof fn blocks_urls_from_decreases(t: Seq<char>, i: int) {
    lemma_find_from_bounds(t, font_face_open(), i);
    if let Some(p) = find_from(t, font_face_open(), i) {
        lemma_find_from_bounds(t, seq!['}'], p + 11);
    }
}

/// The font URLs that the CSS text `text` declares, in document order.
pub open spec fn css_text_urls(text: Seq<char>) -> Result<Seq<Seq<char>>, ExtractError> {
    let t = without_whitespace(text);
    if block_at(t, 0) is None {
        Err(ExtractError::NoFontFace)
    } else if blocks_urls_from(t, 0).len() == 0 {
        Err(ExtractError::NoUrls)
    } else {
        Ok(blocks_urls_from(t, 0))
    }
}

/// The font URLs that the CSS bytes `b` declare, once decoded as UTF-8.
pub open spec fn css_bytes_urls(b: Seq<u8>) -> Result<Seq<Seq<char>>, ExtractError> {
    if valid_utf8(b) {
        css_text_urls(decode_utf8(b))
    } else {
        Err(ExtractError::Encoding)
    }
}

/// The name of a font-face rule, without its brace.
pub open spec fn font_face_word() -> Seq<char> {
    seq!['@', 'f', 'o', 'n', 't', '-', 'f', 'a', 'c', 'e']
}

/// A style sheet with no `@font-face` rule gives `NoFontFace`, whatever
/// `url(...)` references it holds elsewhere.
pub proof fn lemma_no_font_face(text: Seq<char>)
    requires
        forall|p: int| !occurs_at(without_whitespace(text), font_face_word(), p),
    ensures
        css_text_urls(text) == Err::<Seq<Seq<char>>, ExtractError>(ExtractError::NoFontFace),
{
    let t = without_whitespace(text);
    lemma_find_from_bounds(t, font_face_open(), 0);
    if let Some(p) = find_from(t, font_face_open(), 0) {
        assert(t.subrange(p, p + 10) =~= t.subrange(p, p + 11).subrange(0, 10));
        assert(font_face_open().subrange(0, 10) =~= font_face_word());
        assert(occurs_at(t, font_face_word(), p));
    }
}

/// The character sequences of a list of strings.
pub open spec fn strings_view(v: Seq<String>) -> Seq<Seq<char>> {
    v.map_values(|s: String| s@)
}

/// An extraction outcome, with its URLs seen through their character sequences.
pub open spec fn urls_result(r: Result<Vec<String>, ExtractError>) -> Result<Seq<Seq<char>>, ExtractError> {
    match r {
        Ok(v) => Ok(strings_view(v@)),
        Err(e) => Err(e),
    }
}

pub(crate) proof fn lemma_strings_view_push(v: Seq<String>, s: String)
    ensures
        strings_view(v.push(s)) == strings_view(v).push(s@),
{
    assert(strings_view(v.push(s)) =~= strings_view(v).push(s@));
}

fn matches_at(s: &[char], pat: &[char], i: usize) -> (r: bool)
    requires
        i + pat@.len() <= s@.len(),
    ensures
        r == occurs_at(s@, pat@, i as int),
{
    let n = s.len();
    let mut k: usize = 0;
    while k < pat.len()
        invariant
            k <= pat@.len(),
            n == s@.len(),
            i + pat@.len() <= s@.len(),
            forall|j: int| 0 <= j < k ==> s@[i + j] == pat@[j],
        decreases pat@.len() - k,
    {
        if s[i + k] != pat[k] {
            assert(s@.subrange(i as int, i + pat@.len())[k as int] != pat@[k as int]);
            return false;
        }
        k = k + 1;
    }
    assert(s@.subrange(i as int, i + pat@.len()) =~= pat@);
    true
}

/// The first position at or after `from` where `pat` occurs in `s`.
pub(crate) fn find(s: &[char], pat: &[char], from: usize) -> (r: Option<usize>)
    requires
        pat@.len() > 0,
    ensures
        match r {
            Some(p) => find_from(s@, pat@, from as int) == Some(p as int),
            None => find_from(s@, pat@, from as int) is None,
        },
{
    let mut i = from;
    while pat.len() <= s.len() && i <= s.len() - pat.len()
        invariant
            from <= i,
            pat@.len() > 0,
            find_from(s@, pat@, from as int) == find_from(s@, pat@, i as int),
        decreases s@.len() + 1 - i,
    {
        if matches_at(s, pat, i) {
            return Some(i);
        }
        i = i + 1;
    }
    None
}

/// The characters of `s` that are not whitespace.
pub(crate) fn strip_whitespace(s: &str) -> (r: Vec<char>)
    ensures
        r@ == without_whitespace(s@),
{
    let cs = chars_of(s);
    let mut out: Vec<char> = Vec::new();
    let mut i: usize = 0;
    while i < cs.len()
        invariant
            i <= cs@.len(),
            cs@ == s@,
            out@ == without_whitespace(cs@.take(i as int)),
        decreases cs@.len() - i,
    {
        let c = cs[i];
        proof {
            reveal(Seq::filter);
            assert(cs@.take(i as int + 1).drop_last() =~= cs@.take(i as int));
        }
        if !is_whitespace(c) {
            out.push(c);
        }
        i = i + 1;
    }
    proof {
        assert(cs@.take(cs@.len() as int) =~= cs@);
    }
    out
}

/// The string of `s` without its quote characters.
pub(crate) fn unquote(s: &[char]) -> (r: String)
    ensures
        r@ == without_quotes(s@),
{
    let mut out: Vec<char> = Vec::new();
    let mut i: usize = 0;
    while i < s.len()
        invariant
            i <= s@.len(),
            out@ == without_quotes(s@.take(i as int)),
        decreases s@.len() - i,
    {
        let c = s[i];
        proof {
            reveal(Seq::filter);
            assert(s@.take(i as int + 1).drop_last() =~= s@.take(i as int));
        }
        if c != '"' && c != '\'' {
            out.push(c);
        }
        i = i + 1;
    }
    proof {
        assert(s@.take(s@.len() as int) =~= s@);
    }
    string_of(out.as_slice())
}


/// The first position at or after `from` where `sep` stands in `s` outside
/// any `url(...)`.
fn find_separator_in(s: &[char], sep: char, from: usize) -> (r: Option<usize>)
    ensures
        match r {
            Some(p) => find_separator(s@, sep, from as int) == Some(p as int),
            None => find_separator(s@, sep, from as int) is None,
        },
{
    let url_pat = vec!['u', 'r', 'l', '('];
    let close_pat = vec![')'];
    assert(url_pat@ =~= url_open());
    assert(close_pat@ =~= seq![')']);
    let n = s.len();
    let mut i = from;
    while i < n
        invariant
            n == s@.len(),
            from <= i,
            url_pat@ == url_open(),
            close_pat@ == seq![')'],
            find_separator(s@, sep, from as int) == find_separator(s@, sep, i as int),
        decreases n - i,
    {
        if 4 <= n - i && matches_at(s, url_pat.as_slice(), i) {
            proof {
                assert(url_open().len() == 4);
            }
            match find(s, close_pat.as_slice(), i + 4) {
                Some(q) => {
                    proof {
                        lemma_find_from_bounds(s@, seq![')'], i + 4);
                    }
                    i = q + 1;
                    continue;
                },
                None => {},
            }
        } else {
            proof {
                assert(url_open().len() == 4);
            }
        }
        if s[i] == sep {
            return Some(i);
        }
        i = i + 1;
    }
    None
}

/// Appends the URLs of the alternative `a` to `out`.
fn push_alternative_urls(a: &[char], out: &mut Vec<String>)
    ensures
        strings_view(final(out)@) == strings_view(old(out)@) + urls_from(a@, 0),
{
    let url_pat = vec!['u', 'r', 'l', '('];
    let close_pat = vec![')'];
    assert(url_pat@ =~= url_open());
    assert(close_pat@ =~= seq![')']);
    let ghost start = strings_view(out@);
    let n = a.len();
    let mut i: usize = 0;
    loop
        invariant
            i <= a@.len(),
            n == a@.len(),
            start == strings_view(old(out)@),
            url_pat@ == url_open(),
            close_pat@ == seq![')'],
            strings_view(out@) + urls_from(a@, i as int) == start + urls_from(a@, 0),
        decreases a@.len() - i,
    {
        let p = match find(a, url_pat.as_slice(), i) {
            Some(p) => p,
            None => {
                assert(urls_from(a@, i as int) =~= Seq::<Seq<char>>::empty());
                assert(strings_view(out@) + urls_from(a@, i as int) =~= strings_view(out@));
                return;
            },
        };
        proof {
            lemma_find_from_bounds(a@, url_open(), i as int);
            assert(url_open().len() == 4);
        }
        let q = match find(a, close_pat.as_slice(), p + 4) {
            Some(q) => q,
            None => {
                assert(urls_from(a@, i as int) =~= Seq::<Seq<char>>::empty());
                assert(strings_view(out@) + urls_from(a@, i as int) =~= strings_view(out@));
                return;
            },
        };
        proof {
            lemma_find_from_bounds(a@, seq![')'], p + 4);
        }
        let ghost before = strings_view(out@);
        let url = unquote(&a[p + 4..q]);
        proof {
            lemma_strings_view_push(out@, url);
        }
        out.push(url);
        proof {
            assert(a@.subrange(p + 4, q as int) == a@.subrange(p + 4, q as int));
            assert(strings_view(out@) + urls_from(a@, q + 1) =~= before + urls_from(a@, i as int));
        }
        i = q + 1;
    }
}

/// Appends the URLs of the alternatives of the declaration `d` to `out`.
fn push_alternatives_urls(d: &[char], out: &mut Vec<String>)
    ensures
        strings_view(final(out)@) == strings_view(old(out)@) + alternatives_urls_from(d@, 0),
{
    let ghost start = strings_view(out@);
    let n = d.len();
    let mut i: usize = 0;
    loop
        invariant
            i <= d@.len(),
            n == d@.len(),
            start == strings_view(old(out)@),
            strings_view(out@) + alternatives_urls_from(d@, i as int) == start + alternatives_urls_from(d@, 0),
        decreases d@.len() - i,
    {
        let ghost before = strings_view(out@);
        match find_separator_in(d, ',', i) {
            None => {
                push_alternative_urls(&d[i..n], out);
                assert(d@.subrange(i as int, n as int) == d@.subrange(i as int, d@.len() as int));
                return;
            },
            Some(p) => {
                proof {
                    lemma_find_separator_bounds(d@, ',', i as int);
                }
                push_alternative_urls(&d[i..p], out);
                assert(strings_view(out@) + alternatives_urls_from(d@, p + 1) =~= before + alternatives_urls_from(d@, i as int));
                i = p + 1;
            },
        }
    }
}

/// Appends the URLs of the declaration `d` to `out`.
fn push_declaration_urls(d: &[char], out: &mut Vec<String>)
    ensures
        strings_view(final(out)@) == strings_view(old(out)@) + declaration_urls(d@),
{
    let src = vec!['s', 'r', 'c'];
    assert(src@ =~= src_word());
    if find(d, src.as_slice(), 0).is_some() {
        push_alternatives_urls(d, out);
    } else {
        assert(strings_view(out@) + declaration_urls(d@) =~= strings_view(out@));
    }
}

/// Appends the URLs of the declarations of the block body `b` to `out`.
fn push_block_urls(b: &[char], out: &mut Vec<String>)
    ensures
        strings_view(final(out)@) == strings_view(old(out)@) + block_urls_from(b@, 0),
{
    let ghost start = strings_view(out@);
    let n = b.len();
    let mut i: usize = 0;
    loop
        invariant
            i <= b@.len(),
            n == b@.len(),
            start == strings_view(old(out)@),
            strings_view(out@) + block_urls_from(b@, i as int) == start + block_urls_from(b@, 0),
        decreases b@.len() - i,
    {
        let ghost before = strings_view(out@);
        match find_separator_in(b, ';', i) {
            None => {
                push_declaration_urls(&b[i..n], out);
                assert(b@.subrange(i as int, n as int) == b@.subrange(i as int, b@.len() as int));
                return;
            },
            Some(p) => {
                proof {
                    lemma_find_separator_bounds(b@, ';', i as int);
                }
                push_declaration_urls(&b[i..p], out);
                assert(strings_view(out@) + block_urls_from(b@, p + 1) =~= before + block_urls_from(b@, i as int));
                i = p + 1;
            },
        }
    }
}

/// The font URLs that the `@font-face` blocks of the CSS text `text` declare,
/// in document order: block, then declaration, then alternative.
pub fn parse_css_text(text: &str) -> (r: Result<Vec<String>, ExtractError>)
    ensures
        urls_result(r) == css_text_urls(text@),
{
    let t = strip_whitespace(text);
    let open = vec!['@', 'f', 'o', 'n', 't', '-', 'f', 'a', 'c', 'e', '{'];
    let close = vec!['}'];
    assert(open@ =~= font_face_open());
    assert(close@ =~= seq!['}']);
    let ts = t.as_slice();
    let n = ts.len();
    let mut urls: Vec<String> = Vec::new();
    let mut i: usize = 0;
    loop
        invariant
            i <= ts@.len(),
            n == ts@.len(),
            ts@ == without_whitespace(text@),
            open@ == font_face_open(),
            close@ == seq!['}'],
            i == 0 || block_at(ts@, 0) is Some,
            strings_view(urls@) + blocks_urls_from(ts@, i as int) == blocks_urls_from(ts@, 0),
        ensures
            i <= ts@.len(),
            i == 0 || block_at(ts@, 0) is Some,
            block_at(ts@, i as int) is None,
            strings_view(urls@) + blocks_urls_from(ts@, i as int) == blocks_urls_from(ts@, 0),
        decreases ts@.len() - i,
    {
        let p = match find(ts, open.as_slice(), i) {
            Some(p) => p,
            None => break,
        };
        proof {
            lemma_find_from_bounds(ts@, font_face_open(), i as int);
            assert(font_face_open().len() == 11);
        }
        let q = match find(ts, close.as_slice(), p + 11) {
            Some(q) => q,
            None => break,
        };
        proof {
            lemma_find_from_bounds(ts@, seq!['}'], p + 11);
        }
        let ghost before = strings_view(urls@);
        push_block_urls(&ts[p + 11..q], &mut urls);
        assert(strings_view(urls@) + blocks_urls_from(ts@, q + 1) =~= before + blocks_urls_from(ts@, i as int));
        i = q + 1;
    }
    assert(blocks_urls_from(ts@, i as int) =~= Seq::<Seq<char>>::empty());
    assert(strings_view(urls@) =~= blocks_urls_from(ts@, 0));
    if i == 0 {
        Err(ExtractError::NoFontFace)
    } else if urls.len() == 0 {
        Err(ExtractError::NoUrls)
    } else {
        Ok(urls)
    }
}

/// The font URLs that the `@font-face` blocks of the CSS bytes `css_as_bytes`
/// declare, once decoded as UTF-8.
pub fn parse_css_doc(css_as_bytes: Vec<u8>) -> (r: Result<Vec<String>, ExtractError>)
    ensures
        urls_result(r) == css_bytes_urls(css_as_bytes@),
{
    match decode_utf8_bytes(css_as_bytes) {
        None => Err(ExtractError::Encoding),
        Some(text) => parse_css_text(text.as_str()),
    }
}

} // verus!
