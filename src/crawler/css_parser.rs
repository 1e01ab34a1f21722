//! A simpler form of the `@font-face` extraction, which works on the text
//! in place: the whitespace is removed from it, each block body is cut at
//! every `url`, and each piece gives the text of its first `(...)`, with its
//! quote characters removed.

use vstd::prelude::*;

use crate::parsers::css_parser::{
    block_at, find, find_from, font_face_open, lemma_find_from_bounds, lemma_strings_view_push,
    strings_view, strip_whitespace, unquote, urls_result, without_quotes, without_whitespace,
    ExtractError,
};
use crate::text::string_of;

verus! {

pub open spec fn url_word() -> Seq<char> {
    seq!['u', 'r', 'l']
}

/// The text of the first `(...)` of `piece`, without its quote characters.
pub open spec fn first_parenthesised(piece: Seq<char>) -> Seq<Seq<char>> {
    match find_from(piece, seq!['('], 0) {
        None => seq![],
        Some(p) => match find_from(piece, seq![')'], p + 1) {
            None => seq![],
            Some(q) => seq![without_quotes(piece.subrange(p + 1, q))],
        },
    }
}

/// The URLs of the pieces of the block body `b` from position `i` on, a
/// piece ending at the next `url` or at the end.
pub open spec fn pieces_urls_from(b: Seq<char>, i: int) -> Seq<Seq<char>>
    decreases b.len() - i,
    via pieces_urls_from_decreases
{
    match find_from(b, url_word(), i) {
        None => first_parenthesised(b.subrange(i, b.len() as int)),
        Some(p) => first_parenthesised(b.subrange(i, p)) + pieces_urls_from(b, p + 3),
    }
}

#[via_fn]
proof fn pieces_urls_from_decreases(b: Seq<char>, i: int) {
    lemma_find_from_bounds(b, url_word(), i);
}

/// The URLs of the blocks of the stripped text `t` from position `i` on.
pub open spec fn pieces_blocks_urls_from(t: Seq<char>, i: int) -> Seq<Seq<char>>
    decreases t.len() - i,
    via pieces_blocks_urls_from_decreases
{
    match block_at(t, i) {
        None => seq![],
        Some((start, end)) => pieces_urls_from(t.subrange(start, end), 0) + pieces_blocks_urls_from(t, end + 1),
    }
}

#[via_fn]
proof fn pieces_blocks_urls_from_decreases(t: Seq<char>, i: int) {
    lemma_find_from_bounds(t, font_face_open(), i);
    if let Some(p) = find_from(t, font_face_open(), i) {
        lemma_find_from_bounds(t, seq!['}'], p + 11);
    }
}

/// The URLs that this form of the extraction takes from the CSS text `text`.
pub open spec fn pieces_css_urls(text: Seq<char>) -> Result<Seq<Seq<char>>, ExtractError> {
    let t = without_whitespace(text);
    if block_at(t, 0) is None {
        Err(ExtractError::NoFontFace)
    } else if pieces_blocks_urls_from(t, 0).len() == 0 {
        Err(ExtractError::NoUrls)
    } else {
        Ok(pieces_blocks_urls_from(t, 0))
    }
}

/// Appends the URL, if any, of the piece `piece` to `out`.
fn push_first_parenthesised(piece: &[char], out: &mut Vec<String>)
    ensures
        strings_view(final(out)@) == strings_view(old(out)@) + first_parenthesised(piece@),
{
    let open = vec!['('];
    let close = vec![')'];
    assert(open@ =~= seq!['(']);
    assert(close@ =~= seq![')']);
    let p = match find(piece, open.as_slice(), 0) {
        Some(p) => p,
        None => {
            assert(strings_view(out@) + first_parenthesised(piece@) =~= strings_view(out@));
            return;
        },
    };
    let n = piece.len();
    proof {
        lemma_find_from_bounds(piece@, seq!['('], 0);
        assert(seq!['('].len() == 1);
    }
    let q = match find(piece, close.as_slice(), p + 1) {
        Some(q) => q,
        None => {
            assert(strings_view(out@) + first_parenthesised(piece@) =~= strings_view(out@));
            return;
        },
    };
    proof {
        lemma_find_from_bounds(piece@, seq![')'], p + 1);
    }
    let url = unquote(&piece[p + 1..q]);
    proof {
        lemma_strings_view_push(out@, url);
    }
    out.push(url);
}

/// Appends the URLs of the pieces of the block body `b` to `out`.
fn push_pieces_urls(b: &[char], out: &mut Vec<String>)
    ensures
        strings_view(final(out)@) == strings_view(old(out)@) + pieces_urls_from(b@, 0),
{
    let word = vec!['u', 'r', 'l'];
    assert(word@ =~= url_word());
    let ghost start = strings_view(out@);
    let n = b.len();
    let mut i: usize = 0;
    loop
        invariant
            i <= b@.len(),
            n == b@.len(),
            start == strings_view(old(out)@),
            word@ == url_word(),
            strings_view(out@) + pieces_urls_from(b@, i as int) == start + pieces_urls_from(b@, 0),
        decreases b@.len() - i,
    {
        let ghost before = strings_view(out@);
        match find(b, word.as_slice(), i) {
            None => {
                push_first_parenthesised(&b[i..n], out);
                assert(b@.subrange(i as int, n as int) == b@.subrange(i as int, b@.len() as int));
                return;
            },
            Some(p) => {
                proof {
                    lemma_find_from_bounds(b@, url_word(), i as int);
                    assert(url_word().len() == 3);
                }
                push_first_parenthesised(&b[i..p], out);
                assert(strings_view(out@) + pieces_urls_from(b@, p + 3) =~= before + pieces_urls_from(b@, i as int));
                i = p + 3;
            },
        }
    }
}

/// Removes the whitespace from `text` and returns the URLs that its
/// `@font-face` blocks give.
pub fn parse_css_doc(text: &mut String) -> (r: Result<Vec<String>, ExtractError>)
    ensures
        final(text)@ == without_whitespace(old(text)@),
        urls_result(r) == pieces_css_urls(old(text)@),
{
    let t = strip_whitespace(text.as_str());
    *text = string_of(t.as_slice());
    let open = vec!['@', 'f', 'o', 'n', 't', '-', 'f', 'a', 'c', 'e', '{'];
    let close = vec!['}'];
    assert(open@ =~= font_face_open());
    assert(close@ =~= seq!['}']);
    let ts = t.as_slice();
    let n = ts.len();
    let mut urls: Vec<String> = Vec::new();
    let mut i: usize = 0;
    loop
        invariant
            i <= ts@.len(),
            n == ts@.len(),
            ts@ == without_whitespace(old(text)@),
            open@ == font_face_open(),
            close@ == seq!['}'],
            i == 0 || block_at(ts@, 0) is Some,
            strings_view(urls@) + pieces_blocks_urls_from(ts@, i as int) == pieces_blocks_urls_from(ts@, 0),
        ensures
            i <= ts@.len(),
            i == 0 || block_at(ts@, 0) is Some,
            block_at(ts@, i as int) is None,
            strings_view(urls@) + pieces_blocks_urls_from(ts@, i as int) == pieces_blocks_urls_from(ts@, 0),
        decreases ts@.len() - i,
    {
        let p = match find(ts, open.as_slice(), i) {
            Some(p) => p,
            None => break,
        };
        proof {
            lemma_find_from_bounds(ts@, font_face_open(), i as int);
            assert(font_face_open().len() == 11);
        }
        let q = match find(ts, close.as_slice(), p + 11) {
            Some(q) => q,
            None => break,
        };
        proof {
            lemma_find_from_bounds(ts@, seq!['}'], p + 11);
        }
        let ghost before = strings_view(urls@);
        push_pieces_urls(&ts[p + 11..q], &mut urls);
        assert(strings_view(urls@) + pieces_blocks_urls_from(ts@, q + 1) =~= before + pieces_blocks_urls_from(ts@, i as int));
        i = q + 1;
    }
    assert(pieces_blocks_urls_from(ts@, i as int) =~= Seq::<Seq<char>>::empty());
    assert(strings_view(urls@) =~= pieces_blocks_urls_from(ts@, 0));
    if i == 0 {
        Err(ExtractError::NoFontFace)
    } else if urls.len() == 0 {
        Err(ExtractError::NoUrls)
    } else {
        Ok(urls)
    }
}

} // verus!
