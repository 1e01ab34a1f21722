//! Style sheets written as `@font-face` rules whose `src` lists plain URLs,
//! and what extraction gives back for them.

use vstd::prelude::*;

use crate::parsers::css_parser::{
    alternatives_urls_from, block_at, block_urls_from, blocks_urls_from, css_text_urls, declaration_urls,
    find_from, find_separator, font_face_open, occurs_at, src_word, url_open, url_token_end, urls_from,
    without_quotes, without_whitespace, ExtractError,
};
use crate::text::is_white_space;

verus! {

/// The format hint written after each URL: `format(woff)`.
pub open spec fn woff_hint() -> Seq<char> {
    seq!['f', 'o', 'r', 'm', 'a', 't', '(', 'w', 'o', 'o', 'f', 'f', ')']
}

/// The start of a source declaration: `src:`.
pub open spec fn src_prefix() -> Seq<char> {
    seq!['s', 'r', 'c', ':']
}

/// One alternative of a source declaration: `url(x)format(woff)`.
pub open spec fn src_alternative(x: Seq<char>) -> Seq<char> {
    url_open() + x + seq![')'] + woff_hint()
}

/// The alternatives for `xs`, separated by `,`.
pub open spec fn src_alternatives(xs: Seq<Seq<char>>) -> Seq<char>
    decreases xs.len(),
{
    if xs.len() == 0 {
        seq![]
    } else if xs.len() == 1 {
        src_alternative(xs[0])
    } else {
        src_alternative(xs[0]) + seq![','] + src_alternatives(xs.drop_first())
    }
}

/// Whether `x` stands in `url(...)` unchanged: it holds no whitespace, no
/// quote, no `)` and no `}`.
pub open spec fn plain_url(x: Seq<char>) -> bool {
    forall|k: int|
        0 <= k < x.len() ==> !is_white_space(#[trigger] x[k]) && x[k] != ')' && x[k] != '}' && x[k] != '"'
            && x[k] != '\''
}

/// Whether `s` holds no whitespace and no `}`.
pub open spec fn unbroken(s: Seq<char>) -> bool {
    forall|k: int| 0 <= k < s.len() ==> !is_white_space(#[trigger] s[k]) && s[k] != '}'
}

proof fn lemma_occurs_chars(s: Seq<char>, w: Seq<char>, i: int)
    requires
        occurs_at(s, w, i),
    ensures
        forall|k: int| 0 <= k < w.len() ==> s[i + k] == #[trigger] w[k],
{
    assert forall|k: int| 0 <= k < w.len() implies s[i + k] == #[trigger] w[k] by {
        assert(s.subrange(i, i + w.len())[k] == s[i + k]);
    }
}

proof fn lemma_occurs_split(s: Seq<char>, a: Seq<char>, b: Seq<char>, i: int)
    requires
        occurs_at(s, a + b, i),
    ensures
        occurs_at(s, a, i),
        occurs_at(s, b, i + a.len()),
{
    lemma_occurs_chars(s, a + b, i);
    assert(s.subrange(i, i + a.len()) =~= a) by {
        assert forall|k: int| 0 <= k < a.len() implies s.subrange(i, i + a.len())[k] == a[k] by {
            assert((a + b)[k] == a[k]);
        }
    }
    assert(s.subrange(i + a.len(), i + a.len() + b.len()) =~= b) by {
        assert forall|k: int| 0 <= k < b.len() implies s.subrange(i + a.len(), i + a.len() + b.len())[k] == b[k] by {
            assert((a + b)[a.len() + k] == b[k]);
        }
    }
}

proof fn lemma_find_skip(s: Seq<char>, pat: Seq<char>, i: int, j: int)
    requires
        pat.len() > 0,
        0 <= i <= j,
        forall|k: int| i <= k < j && k < s.len() ==> s[k] != pat[0],
    ensures
        find_from(s, pat, i) == find_from(s, pat, j),
    decreases j - i,
{
    if i < j {
        if i + pat.len() <= s.len() {
            assert(s.subrange(i, i + pat.len())[0] == s[i]);
            lemma_find_skip(s, pat, i + 1, j);
        }
    }
}

proof fn lemma_separator_skip(s: Seq<char>, sep: char, i: int, j: int)
    requires
        0 <= i <= j <= s.len(),
        forall|k: int| i <= k < j ==> s[k] != sep && s[k] != 'u',
    ensures
        find_separator(s, sep, i) == find_separator(s, sep, j),
    decreases j - i,
{
    if i < j {
        assert(!occurs_at(s, url_open(), i)) by {
            if occurs_at(s, url_open(), i) {
                lemma_occurs_chars(s, url_open(), i);
                assert(s[i + 0] == url_open()[0]);
            }
        }
        lemma_separator_skip(s, sep, i + 1, j);
    }
}

proof fn lemma_no_quotes(x: Seq<char>)
    requires
        plain_url(x),
    ensures
        without_quotes(x) == x,
    decreases x.len(),
{
    reveal(Seq::filter);
    if x.len() > 0 {
        lemma_no_quotes(x.drop_last());
        assert(x.drop_last().push(x.last()) =~= x);
    }
}

proof fn lemma_no_whitespace(s: Seq<char>)
    requires
        forall|k: int| 0 <= k < s.len() ==> !is_white_space(#[trigger] s[k]),
    ensures
        without_whitespace(s) == s,
    decreases s.len(),
{
    reveal(Seq::filter);
    if s.len() > 0 {
        lemma_no_whitespace(s.drop_last());
        assert(s.drop_last().push(s.last()) =~= s);
    }
}

/// Where the alternative for `x` stands at `i` in `s`, its `url(...)`
/// closes just after `x`.
proof fn lemma_alternative_token(s: Seq<char>, x: Seq<char>, i: int)
    requires
        occurs_at(s, src_alternative(x), i),
        plain_url(x),
    ensures
        url_token_end(s, i) == Some(i + 4 + x.len()),
{
    lemma_occurs_split(s, url_open() + x + seq![')'], woff_hint(), i);
    lemma_occurs_split(s, url_open() + x, seq![')'], i);
    lemma_occurs_split(s, url_open(), x, i);
    lemma_occurs_chars(s, x, i + 4);
    assert forall|k: int| i + 4 <= k < i + 4 + x.len() && k < s.len() implies s[k] != seq![')'][0] by {
        assert(s[i + 4 + (k - i - 4)] == x[k - i - 4]);
    }
    lemma_find_skip(s, seq![')'], i + 4, i + 4 + x.len());
}

/// The separator search passes over an alternative.
proof fn lemma_alternative_walk(s: Seq<char>, sep: char, x: Seq<char>, i: int)
    requires
        occurs_at(s, src_alternative(x), i),
        plain_url(x),
        sep == ',' || sep == ';',
    ensures
        find_separator(s, sep, i) == find_separator(s, sep, i + src_alternative(x).len()),
{
    lemma_alternative_token(s, x, i);
    lemma_occurs_split(s, url_open() + x + seq![')'], woff_hint(), i);
    let h = i + 5 + x.len();
    lemma_occurs_chars(s, woff_hint(), h);
    assert forall|k: int| h <= k < h + 13 implies s[k] != sep && s[k] != 'u' by {
        assert(s[h + (k - h)] == woff_hint()[k - h]);
    }
    lemma_separator_skip(s, sep, h, h + 13);
}

/// The `;` search passes over all the alternatives.
proof fn lemma_alternatives_walk(s: Seq<char>, xs: Seq<Seq<char>>, i: int)
    requires
        occurs_at(s, src_alternatives(xs), i),
        forall|k: int| 0 <= k < xs.len() ==> plain_url(#[trigger] xs[k]),
    ensures
        find_separator(s, ';', i) == find_separator(s, ';', i + src_alternatives(xs).len()),
    decreases xs.len(),
{
    if xs.len() == 1 {
        lemma_alternative_walk(s, ';', xs[0], i);
    } else if xs.len() > 1 {
        let a = src_alternative(xs[0]);
        lemma_occurs_split(s, a + seq![','], src_alternatives(xs.drop_first()), i);
        lemma_occurs_split(s, a, seq![','], i);
        lemma_alternative_walk(s, ';', xs[0], i);
        lemma_occurs_chars(s, seq![','], i + a.len());
        assert(s[i + a.len() + 0] == seq![','][0]);
        lemma_separator_skip(s, ';', i + a.len(), i + a.len() + 1);
        assert forall|k: int| 0 <= k < xs.drop_first().len() implies plain_url(#[trigger] xs.drop_first()[k]) by {
            assert(xs.drop_first()[k] == xs[k + 1]);
        }
        lemma_alternatives_walk(s, xs.drop_first(), i + a.len() + 1);
    }
}

/// The URL of one alternative, after a prefix without `u`.
proof fn lemma_alternative_urls(a: Seq<char>, pre: Seq<char>, x: Seq<char>)
    requires
        a == pre + src_alternative(x),
        forall|k: int| 0 <= k < pre.len() ==> pre[k] != 'u',
        plain_url(x),
    ensures
        urls_from(a, 0) == seq![x],
{
    let n = pre.len() as int;
    assert(occurs_at(a, src_alternative(x), n)) by {
        assert(a.subrange(n, n + src_alternative(x).len()) =~= src_alternative(x));
    }
    assert forall|k: int| 0 <= k < n && k < a.len() implies a[k] != url_open()[0] by {
        assert(a[k] == pre[k]);
    }
    lemma_find_skip(a, url_open(), 0, n);
    lemma_occurs_split(a, url_open() + x + seq![')'], woff_hint(), n);
    lemma_occurs_split(a, url_open() + x, seq![')'], n);
    lemma_occurs_split(a, url_open(), x, n);
    let q: int = n + 4 + x.len();
    lemma_alternative_token(a, x, n);
    assert(a.subrange(n + 4, q) =~= x);
    lemma_no_quotes(x);
    let h: int = q + 1;
    lemma_occurs_chars(a, woff_hint(), h);
    assert forall|k: int| h <= k < a.len() as int && k < a.len() implies a[k] != url_open()[0] by {
        assert(a[h + (k - h)] == woff_hint()[k - h]);
    }
    lemma_find_skip(a, url_open(), h, a.len() as int);
    assert(urls_from(a, q + 1) =~= Seq::<Seq<char>>::empty());
    assert(seq![without_quotes(a.subrange(n + 4, q))] + Seq::<Seq<char>>::empty() =~= seq![x]);
}

/// The URLs of the alternatives that follow a prefix without `u` or `,`.
proof fn lemma_alternatives_urls(d: Seq<char>, i: int, pre: Seq<char>, xs: Seq<Seq<char>>)
    requires
        0 <= i <= d.len(),
        d.subrange(i, d.len() as int) == pre + src_alternatives(xs),
        xs.len() > 0,
        forall|k: int| 0 <= k < pre.len() ==> pre[k] != 'u' && pre[k] != ',',
        forall|k: int| 0 <= k < xs.len() ==> plain_url(#[trigger] xs[k]),
    ensures
        alternatives_urls_from(d, i) == xs,
    decreases xs.len(),
{
    let a = src_alternative(xs[0]);
    let p = i + pre.len();
    assert(occurs_at(d, pre + src_alternatives(xs), i)) by {
        assert(d.subrange(i, i + (pre + src_alternatives(xs)).len()) =~= d.subrange(i, d.len() as int));
    }
    lemma_occurs_split(d, pre, src_alternatives(xs), i);
    lemma_occurs_chars(d, pre, i);
    assert forall|k: int| i <= k < p implies d[k] != ',' && d[k] != 'u' by {
        assert(d[i + (k - i)] == pre[k - i]);
    }
    lemma_separator_skip(d, ',', i, p);
    if xs.len() == 1 {
        assert(src_alternatives(xs) == a);
        lemma_alternative_walk(d, ',', xs[0], p);
        assert(find_separator(d, ',', p + a.len()) is None);
        lemma_alternative_urls(d.subrange(i, d.len() as int), pre, xs[0]);
    } else {
        let rest = xs.drop_first();
        assert(src_alternatives(xs) == a + seq![','] + src_alternatives(rest));
        lemma_occurs_split(d, a + seq![','], src_alternatives(rest), p);
        lemma_occurs_split(d, a, seq![','], p);
        lemma_alternative_walk(d, ',', xs[0], p);
        let c = p + a.len();
        lemma_occurs_chars(d, seq![','], c);
        assert(d[c + 0] == seq![','][0]);
        assert(c < d.len());
        assert(!occurs_at(d, url_open(), c)) by {
            if occurs_at(d, url_open(), c) {
                lemma_occurs_chars(d, url_open(), c);
                assert(d[c + 0] == url_open()[0]);
            }
        }
        assert(find_separator(d, ',', c) == Some(c));
        assert(d.subrange(i, c) =~= pre + a) by {
            assert forall|k: int| 0 <= k < c - i implies d.subrange(i, c)[k] == (pre + a)[k] by {
                assert(d.subrange(i, d.len() as int)[k] == (pre + src_alternatives(xs))[k]);
                assert((pre + src_alternatives(xs))[k] == (pre + a)[k]) by {
                    assert(src_alternatives(xs) == a + (seq![','] + src_alternatives(rest)));
                    if k >= pre.len() {
                        assert((a + (seq![','] + src_alternatives(rest)))[k - pre.len()] == a[k - pre.len()]);
                    }
                }
            }
        }
        lemma_alternative_urls(d.subrange(i, c), pre, xs[0]);
        assert(d.subrange(c + 1, d.len() as int) =~= Seq::<char>::empty() + src_alternatives(rest)) by {
            assert forall|k: int| 0 <= k < d.len() - c - 1 implies d.subrange(c + 1, d.len() as int)[k] == src_alternatives(rest)[k] by {
                assert(d.subrange(i, d.len() as int)[c + 1 - i + k] == (pre + src_alternatives(xs))[c + 1 - i + k]);
                assert(src_alternatives(xs) == (a + seq![',']) + src_alternatives(rest));
            }
        }
        assert forall|k: int| 0 <= k < rest.len() implies plain_url(#[trigger] rest[k]) by {
            assert(rest[k] == xs[k + 1]);
        }
        lemma_alternatives_urls(d, c + 1, Seq::<char>::empty(), rest);
        assert(seq![xs[0]] + rest =~= xs);
    }
}

/// Whether `s` holds no whitespace.
pub open spec fn no_white_space(s: Seq<char>) -> bool {
    forall|k: int| 0 <= k < s.len() ==> !is_white_space(#[trigger] s[k])
}

proof fn lemma_unbroken_concat(a: Seq<char>, b: Seq<char>)
    requires
        unbroken(a),
        unbroken(b),
    ensures
        unbroken(a + b),
{
    assert forall|k: int| 0 <= k < (a + b).len() implies !is_white_space(#[trigger] (a + b)[k]) && (a + b)[k] != '}' by {
        if k < a.len() {
            assert((a + b)[k] == a[k]);
        } else {
            assert((a + b)[k] == b[k - a.len()]);
        }
    }
}

proof fn lemma_no_white_space_concat(a: Seq<char>, b: Seq<char>)
    requires
        no_white_space(a),
        no_white_space(b),
    ensures
        no_white_space(a + b),
{
    assert forall|k: int| 0 <= k < (a + b).len() implies !is_white_space(#[trigger] (a + b)[k]) by {
        if k < a.len() {
            assert((a + b)[k] == a[k]);
        } else {
            assert((a + b)[k] == b[k - a.len()]);
        }
    }
}

proof fn lemma_alternatives_unbroken(xs: Seq<Seq<char>>)
    requires
        forall|k: int| 0 <= k < xs.len() ==> plain_url(#[trigger] xs[k]),
    ensures
        unbroken(src_alternatives(xs)),
    decreases xs.len(),
{
    if xs.len() > 0 {
        let x = xs[0];
        assert(plain_url(x));
        assert(unbroken(url_open()));
        assert(unbroken(x));
        assert(unbroken(seq![')']));
        assert(unbroken(woff_hint()));
        lemma_unbroken_concat(url_open(), x);
        lemma_unbroken_concat(url_open() + x, seq![')']);
        lemma_unbroken_concat(url_open() + x + seq![')'], woff_hint());
        if xs.len() > 1 {
            assert forall|k: int| 0 <= k < xs.drop_first().len() implies plain_url(#[trigger] xs.drop_first()[k]) by {
                assert(xs.drop_first()[k] == xs[k + 1]);
            }
            lemma_alternatives_unbroken(xs.drop_first());
            assert(unbroken(seq![',']));
            lemma_unbroken_concat(src_alternative(x), seq![',']);
            lemma_unbroken_concat(src_alternative(x) + seq![','], src_alternatives(xs.drop_first()));
        }
    }
}

/// Whether `d` can stand as another declaration of a rule: it holds no
/// whitespace, `;`, `}` or `u`, and does not mention `src`.
pub open spec fn plain_declaration(d: Seq<char>) -> bool {
    &&& forall|k: int| 0 <= k < d.len() ==> !is_white_space(#[trigger] d[k]) && d[k] != ';' && d[k] != '}' && d[k] != 'u'
    &&& find_from(d, src_word(), 0) is None
}

/// Whether `f` can stand between rules: it holds no whitespace and no `@`.
pub open spec fn plain_filler(f: Seq<char>) -> bool {
    forall|k: int| 0 <= k < f.len() ==> !is_white_space(#[trigger] f[k]) && f[k] != '@'
}

/// The declarations `ds`, each followed by `;`.
pub open spec fn leading_declarations(ds: Seq<Seq<char>>) -> Seq<char>
    decreases ds.len(),
{
    if ds.len() == 0 {
        seq![]
    } else {
        ds[0] + seq![';'] + leading_declarations(ds.drop_first())
    }
}

/// The declarations `ds`, each preceded by `;`.
pub open spec fn trailing_declarations(ds: Seq<Seq<char>>) -> Seq<char>
    decreases ds.len(),
{
    if ds.len() == 0 {
        seq![]
    } else {
        seq![';'] + ds[0] + trailing_declarations(ds.drop_first())
    }
}

/// A `@font-face` rule and the text that stands before it: other
/// declarations before and after its `src` declaration, which lists `urls`.
pub struct RuleText {
    pub filler: Seq<char>,
    pub before: Seq<Seq<char>>,
    pub urls: Seq<Seq<char>>,
    pub after: Seq<Seq<char>>,
}

/// The body of the rule `r`.
pub open spec fn rule_body(r: RuleText) -> Seq<char> {
    leading_declarations(r.before) + (src_prefix() + src_alternatives(r.urls) + trailing_declarations(r.after))
}

/// The text before the rule `r`, then the rule itself.
pub open spec fn rule_text(r: RuleText) -> Seq<char> {
    r.filler + (font_face_open() + rule_body(r) + seq!['}'])
}

/// The style sheet made of the rules `rules`, then the text `tail`.
pub open spec fn style_sheet(rules: Seq<RuleText>, tail: Seq<char>) -> Seq<char>
    decreases rules.len(),
{
    if rules.len() == 0 {
        tail
    } else {
        rule_text(rules[0]) + style_sheet(rules.drop_first(), tail)
    }
}

/// The URLs of the rules `rules`, in order.
pub open spec fn sheet_urls(rules: Seq<RuleText>) -> Seq<Seq<char>>
    decreases rules.len(),
{
    if rules.len() == 0 {
        seq![]
    } else {
        rules[0].urls + sheet_urls(rules.drop_first())
    }
}

/// Whether every part of the rule `r` is plain and it lists one URL at least.
pub open spec fn plain_rule(r: RuleText) -> bool {
    &&& plain_filler(r.filler)
    &&& forall|k: int| 0 <= k < r.before.len() ==> plain_declaration(#[trigger] r.before[k])
    &&& forall|k: int| 0 <= k < r.after.len() ==> plain_declaration(#[trigger] r.after[k])
    &&& r.urls.len() > 0
    &&& forall|k: int| 0 <= k < r.urls.len() ==> plain_url(#[trigger] r.urls[k])
}

/// The declarations before a `src` declaration contribute no URL.
proof fn lemma_leading_urls(body: Seq<char>, i: int, ds: Seq<Seq<char>>)
    requires
        0 <= i,
        occurs_at(body, leading_declarations(ds), i),
        forall|k: int| 0 <= k < ds.len() ==> plain_declaration(#[trigger] ds[k]),
    ensures
        i + leading_declarations(ds).len() <= body.len(),
        block_urls_from(body, i) == block_urls_from(body, i + leading_declarations(ds).len()),
    decreases ds.len(),
{
    if ds.len() > 0 {
        let d = ds[0];
        let rest = ds.drop_first();
        assert(plain_declaration(d));
        lemma_occurs_split(body, d + seq![';'], leading_declarations(rest), i);
        lemma_occurs_split(body, d, seq![';'], i);
        lemma_occurs_chars(body, d, i);
        lemma_occurs_chars(body, seq![';'], i + d.len());
        assert(body[i + d.len() + 0] == seq![';'][0]);
        assert forall|k: int| i <= k < i + d.len() implies body[k] != ';' && body[k] != 'u' by {
            assert(body[i + (k - i)] == d[k - i]);
        }
        lemma_separator_skip(body, ';', i, i + d.len());
        let p = i + d.len();
        assert(!occurs_at(body, url_open(), p)) by {
            if occurs_at(body, url_open(), p) {
                lemma_occurs_chars(body, url_open(), p);
                assert(body[p + 0] == url_open()[0]);
            }
        }
        assert(find_separator(body, ';', p) == Some(p));
        assert(body.subrange(i, p) =~= d);
        assert(declaration_urls(d) =~= Seq::<Seq<char>>::empty());
        assert forall|k: int| 0 <= k < rest.len() implies plain_declaration(#[trigger] rest[k]) by {
            assert(rest[k] == ds[k + 1]);
        }
        lemma_leading_urls(body, p + 1, rest);
        assert(block_urls_from(body, i) =~= block_urls_from(body, p + 1));
    }
}

/// The declarations after a `src` declaration, from the start of one on,
/// contribute no URL.
proof fn lemma_trailing_urls(body: Seq<char>, i: int, ds: Seq<Seq<char>>)
    requires
        0 <= i <= body.len(),
        ds.len() > 0,
        body.subrange(i, body.len() as int) == ds[0] + trailing_declarations(ds.drop_first()),
        forall|k: int| 0 <= k < ds.len() ==> plain_declaration(#[trigger] ds[k]),
    ensures
        block_urls_from(body, i) == Seq::<Seq<char>>::empty(),
    decreases ds.len(),
{
    let d = ds[0];
    let rest = ds.drop_first();
    assert(plain_declaration(d));
    let p = i + d.len();
    assert(occurs_at(body, d + trailing_declarations(rest), i)) by {
        assert(body.subrange(i, i + (d + trailing_declarations(rest)).len()) =~= body.subrange(i, body.len() as int));
    }
    lemma_occurs_split(body, d, trailing_declarations(rest), i);
    lemma_occurs_chars(body, d, i);
    assert forall|k: int| i <= k < p implies body[k] != ';' && body[k] != 'u' by {
        assert(body[i + (k - i)] == d[k - i]);
    }
    lemma_separator_skip(body, ';', i, p);
    if rest.len() == 0 {
        assert(p == body.len());
        assert(body.subrange(i, body.len() as int) =~= d);
        assert(declaration_urls(d) =~= Seq::<Seq<char>>::empty());
    } else {
        assert(trailing_declarations(rest) == seq![';'] + (rest[0] + trailing_declarations(rest.drop_first())));
        lemma_occurs_split(body, seq![';'], rest[0] + trailing_declarations(rest.drop_first()), p);
        lemma_occurs_chars(body, seq![';'], p);
        assert(body[p + 0] == seq![';'][0]);
        assert(!occurs_at(body, url_open(), p)) by {
            if occurs_at(body, url_open(), p) {
                lemma_occurs_chars(body, url_open(), p);
                assert(body[p + 0] == url_open()[0]);
            }
        }
        assert(find_separator(body, ';', p) == Some(p));
        assert(body.subrange(i, p) =~= d);
        assert(declaration_urls(d) =~= Seq::<Seq<char>>::empty());
        assert(body.subrange(p + 1, body.len() as int) =~= rest[0] + trailing_declarations(rest.drop_first())) by {
            assert forall|k: int| 0 <= k < body.len() - p - 1 implies body.subrange(p + 1, body.len() as int)[k]
                == (rest[0] + trailing_declarations(rest.drop_first()))[k] by {
                assert(body.subrange(i, body.len() as int)[d.len() + 1 + k] == body[p + 1 + k]);
                assert((d + trailing_declarations(rest))[d.len() + 1 + k] == trailing_declarations(rest)[1 + k]);
            }
        }
        assert forall|k: int| 0 <= k < rest.len() implies plain_declaration(#[trigger] rest[k]) by {
            assert(rest[k] == ds[k + 1]);
        }
        lemma_trailing_urls(body, p + 1, rest);
        assert(block_urls_from(body, i) =~= block_urls_from(body, p + 1));
    }
}

proof fn lemma_leading_unbroken(ds: Seq<Seq<char>>)
    requires
        forall|k: int| 0 <= k < ds.len() ==> plain_declaration(#[trigger] ds[k]),
    ensures
        unbroken(leading_declarations(ds)),
    decreases ds.len(),
{
    if ds.len() > 0 {
        assert(plain_declaration(ds[0]));
        assert forall|k: int| 0 <= k < ds.drop_first().len() implies plain_declaration(#[trigger] ds.drop_first()[k]) by {
            assert(ds.drop_first()[k] == ds[k + 1]);
        }
        lemma_leading_unbroken(ds.drop_first());
        assert(unbroken(seq![';']));
        lemma_unbroken_concat(ds[0], seq![';']);
        lemma_unbroken_concat(ds[0] + seq![';'], leading_declarations(ds.drop_first()));
    }
}

proof fn lemma_trailing_unbroken(ds: Seq<Seq<char>>)
    requires
        forall|k: int| 0 <= k < ds.len() ==> plain_declaration(#[trigger] ds[k]),
    ensures
        unbroken(trailing_declarations(ds)),
    decreases ds.len(),
{
    if ds.len() > 0 {
        assert(plain_declaration(ds[0]));
        assert forall|k: int| 0 <= k < ds.drop_first().len() implies plain_declaration(#[trigger] ds.drop_first()[k]) by {
            assert(ds.drop_first()[k] == ds[k + 1]);
        }
        lemma_trailing_unbroken(ds.drop_first());
        assert(unbroken(seq![';']));
        lemma_unbroken_concat(seq![';'], ds[0]);
        lemma_unbroken_concat(seq![';'] + ds[0], trailing_declarations(ds.drop_first()));
    }
}

/// A `src` declaration, followed by other declarations, gives its URLs.
proof fn lemma_src_declaration_urls(body: Seq<char>, q: int, xs: Seq<Seq<char>>, after: Seq<Seq<char>>)
    requires
        0 <= q <= body.len(),
        body.subrange(q, body.len() as int) == src_prefix() + src_alternatives(xs) + trailing_declarations(after),
        xs.len() > 0,
        forall|k: int| 0 <= k < xs.len() ==> plain_url(#[trigger] xs[k]),
        forall|k: int| 0 <= k < after.len() ==> plain_declaration(#[trigger] after[k]),
    ensures
        block_urls_from(body, q) == xs,
{
    let a = src_alternatives(xs);
    let tr = trailing_declarations(after);
    let q2 = q + 4 + a.len();
    assert(occurs_at(body, src_prefix() + a + tr, q)) by {
        assert(body.subrange(q, q + (src_prefix() + a + tr).len()) =~= body.subrange(q, body.len() as int));
    }
    lemma_occurs_split(body, src_prefix() + a, tr, q);
    lemma_occurs_split(body, src_prefix(), a, q);
    lemma_occurs_chars(body, src_prefix(), q);
    assert forall|k: int| q <= k < q + 4 implies body[k] != ';' && body[k] != 'u' by {
        assert(body[q + (k - q)] == src_prefix()[k - q]);
    }
    lemma_separator_skip(body, ';', q, q + 4);
    lemma_alternatives_walk(body, xs, q + 4);
    let piece = src_prefix() + a;
    assert(occurs_at(piece, src_word(), 0)) by {
        assert(piece.subrange(0, 3) =~= src_word());
    }
    assert(find_from(piece, src_word(), 0) == Some(0int));
    assert forall|k: int| 0 <= k < src_prefix().len() implies src_prefix()[k] != 'u' && src_prefix()[k] != ',' by {}
    assert(piece.subrange(0, piece.len() as int) =~= piece);
    lemma_alternatives_urls(piece, 0, src_prefix(), xs);
    assert(declaration_urls(piece) == xs);
    if after.len() == 0 {
        assert(q2 == body.len());
        assert(body.subrange(q, body.len() as int) =~= piece);
    } else {
        let rest = after.drop_first();
        assert(tr == seq![';'] + (after[0] + trailing_declarations(rest)));
        lemma_occurs_split(body, seq![';'], after[0] + trailing_declarations(rest), q2);
        lemma_occurs_chars(body, seq![';'], q2);
        assert(body[q2 + 0] == seq![';'][0]);
        assert(!occurs_at(body, url_open(), q2)) by {
            if occurs_at(body, url_open(), q2) {
                lemma_occurs_chars(body, url_open(), q2);
                assert(body[q2 + 0] == url_open()[0]);
            }
        }
        assert(find_separator(body, ';', q2) == Some(q2));
        assert(body.subrange(q, q2) =~= piece) by {
            lemma_occurs_chars(body, piece, q);
        }
        lemma_occurs_chars(body, after[0] + trailing_declarations(rest), q2 + 1);
        assert(body.subrange(q2 + 1, body.len() as int) =~= after[0] + trailing_declarations(rest)) by {
            assert(body.len() == q2 + tr.len());
        }
        lemma_trailing_urls(body, q2 + 1, after);
        assert(xs + Seq::<Seq<char>>::empty() =~= xs);
    }
}

/// A rule at `i` of `t` is one block, whose body gives the rule's URLs.
proof fn lemma_rule_text_urls(t: Seq<char>, i: int, r: RuleText)
    requires
        occurs_at(t, font_face_open() + rule_body(r) + seq!['}'], i),
        plain_rule(r),
    ensures
        block_at(t, i) == Some((i + 11, i + 11 + rule_body(r).len())),
        block_urls_from(t.subrange(i + 11, i + 11 + rule_body(r).len()), 0) == r.urls,
{
    let lead = leading_declarations(r.before);
    let rest = src_prefix() + src_alternatives(r.urls) + trailing_declarations(r.after);
    let b = rule_body(r);
    let e = i + 11 + b.len();
    lemma_occurs_split(t, font_face_open() + b, seq!['}'], i);
    lemma_occurs_split(t, font_face_open(), b, i);
    assert(find_from(t, font_face_open(), i) == Some(i));
    lemma_leading_unbroken(r.before);
    lemma_trailing_unbroken(r.after);
    lemma_alternatives_unbroken(r.urls);
    assert(unbroken(src_prefix()));
    lemma_unbroken_concat(src_prefix(), src_alternatives(r.urls));
    lemma_unbroken_concat(src_prefix() + src_alternatives(r.urls), trailing_declarations(r.after));
    lemma_unbroken_concat(lead, rest);
    lemma_occurs_chars(t, b, i + 11);
    lemma_occurs_chars(t, seq!['}'], e);
    assert forall|k: int| i + 11 <= k < e && k < t.len() implies t[k] != seq!['}'][0] by {
        assert(t[i + 11 + (k - i - 11)] == b[k - i - 11]);
    }
    lemma_find_skip(t, seq!['}'], i + 11, e);
    assert(t.subrange(e, e + 1) =~= seq!['}']) by {
        assert(t[e + 0] == seq!['}'][0]);
    }
    assert(find_from(t, seq!['}'], e) == Some(e));
    let body = t.subrange(i + 11, e);
    assert(body =~= b);
    assert(occurs_at(body, lead, 0)) by {
        assert(body.subrange(0, lead.len() as int) =~= lead);
    }
    assert forall|k: int| 0 <= k < r.before.len() implies plain_declaration(#[trigger] r.before[k]) by {}
    lemma_leading_urls(body, 0, r.before);
    assert(body.subrange(lead.len() as int, body.len() as int) =~= rest);
    lemma_src_declaration_urls(body, lead.len() as int, r.urls, r.after);
}

/// The blocks of a style sheet, from the start of a rule's text on, give the
/// URLs of the rules.
proof fn lemma_style_sheet_urls(t: Seq<char>, i: int, rules: Seq<RuleText>, tail: Seq<char>)
    requires
        0 <= i <= t.len(),
        t.subrange(i, t.len() as int) == style_sheet(rules, tail),
        forall|k: int| 0 <= k < rules.len() ==> plain_rule(#[trigger] rules[k]),
        plain_filler(tail),
    ensures
        blocks_urls_from(t, i) == sheet_urls(rules),
        rules.len() > 0 ==> block_at(t, i) is Some,
    decreases rules.len(),
{
    if rules.len() == 0 {
        assert forall|k: int| i <= k < t.len() && k < t.len() implies t[k] != font_face_open()[0] by {
            assert(t.subrange(i, t.len() as int)[k - i] == tail[k - i]);
        }
        lemma_find_skip(t, font_face_open(), i, t.len() as int);
        assert(find_from(t, font_face_open(), t.len() as int) is None);
    } else {
        let r = rules[0];
        let rest = rules.drop_first();
        let f = r.filler;
        let rr = font_face_open() + rule_body(r) + seq!['}'];
        assert(plain_rule(r));
        assert(style_sheet(rules, tail) == rule_text(r) + style_sheet(rest, tail));
        assert(occurs_at(t, rule_text(r), i)) by {
            assert(t.subrange(i, i + rule_text(r).len()) =~= rule_text(r)) by {
                assert forall|k: int| 0 <= k < rule_text(r).len() implies t.subrange(i, i + rule_text(r).len())[k] == rule_text(r)[k] by {
                    assert(t.subrange(i, t.len() as int)[k] == t[i + k]);
                    assert(t.subrange(i, t.len() as int)[k] == (rule_text(r) + style_sheet(rest, tail))[k]);
                }
            }
        }
        lemma_occurs_split(t, f, rr, i);
        lemma_occurs_chars(t, f, i);
        assert forall|k: int| i <= k < i + f.len() && k < t.len() implies t[k] != font_face_open()[0] by {
            assert(t[i + (k - i)] == f[k - i]);
        }
        lemma_find_skip(t, font_face_open(), i, i + f.len());
        lemma_rule_text_urls(t, i + f.len(), r);
        let e = i + f.len() + 11 + rule_body(r).len();
        assert(e + 1 == i + rule_text(r).len());
        assert(t.subrange(e + 1, t.len() as int) =~= style_sheet(rest, tail)) by {
            assert forall|k: int| 0 <= k < t.len() - e - 1 implies t.subrange(e + 1, t.len() as int)[k] == style_sheet(rest, tail)[k] by {
                assert(t.subrange(i, t.len() as int)[rule_text(r).len() + k] == t[i + rule_text(r).len() + k]);
                assert(t.subrange(i, t.len() as int)[rule_text(r).len() + k] == (rule_text(r) + style_sheet(rest, tail))[rule_text(r).len() + k]);
            }
        }
        assert forall|k: int| 0 <= k < rest.len() implies plain_rule(#[trigger] rest[k]) by {
            assert(rest[k] == rules[k + 1]);
        }
        lemma_style_sheet_urls(t, e + 1, rest, tail);
    }
}

proof fn lemma_style_sheet_no_white_space(rules: Seq<RuleText>, tail: Seq<char>)
    requires
        forall|k: int| 0 <= k < rules.len() ==> plain_rule(#[trigger] rules[k]),
        plain_filler(tail),
    ensures
        no_white_space(style_sheet(rules, tail)),
    decreases rules.len(),
{
    if rules.len() > 0 {
        let r = rules[0];
        assert(plain_rule(r));
        lemma_leading_unbroken(r.before);
        lemma_trailing_unbroken(r.after);
        lemma_alternatives_unbroken(r.urls);
        assert(unbroken(src_prefix()));
        lemma_unbroken_concat(src_prefix(), src_alternatives(r.urls));
        lemma_unbroken_concat(src_prefix() + src_alternatives(r.urls), trailing_declarations(r.after));
        lemma_unbroken_concat(leading_declarations(r.before), src_prefix() + src_alternatives(r.urls) + trailing_declarations(r.after));
        assert(no_white_space(rule_body(r)));
        assert(no_white_space(r.filler));
        assert(no_white_space(font_face_open()));
        assert(no_white_space(seq!['}']));
        lemma_no_white_space_concat(font_face_open(), rule_body(r));
        lemma_no_white_space_concat(font_face_open() + rule_body(r), seq!['}']);
        lemma_no_white_space_concat(r.filler, font_face_open() + rule_body(r) + seq!['}']);
        assert forall|k: int| 0 <= k < rules.drop_first().len() implies plain_rule(#[trigger] rules.drop_first()[k]) by {
            assert(rules.drop_first()[k] == rules[k + 1]);
        }
        lemma_style_sheet_no_white_space(rules.drop_first(), tail);
        lemma_no_white_space_concat(rule_text(r), style_sheet(rules.drop_first(), tail));
    }
}

proof fn lemma_css_text_urls_of(t: Seq<char>, v: Seq<Seq<char>>)
    requires
        without_whitespace(t) == t,
        block_at(t, 0) is Some,
        blocks_urls_from(t, 0) == v,
        v.len() > 0,
    ensures
        css_text_urls(t) == Ok::<Seq<Seq<char>>, ExtractError>(v),
{
}

proof fn lemma_style_sheet_stripped(rules: Seq<RuleText>, tail: Seq<char>)
    requires
        forall|k: int| 0 <= k < rules.len() ==> plain_rule(#[trigger] rules[k]),
        plain_filler(tail),
    ensures
        without_whitespace(style_sheet(rules, tail)) == style_sheet(rules, tail),
{
    lemma_style_sheet_no_white_space(rules, tail);
    lemma_no_whitespace(style_sheet(rules, tail));
}

proof fn lemma_style_sheet_blocks(rules: Seq<RuleText>, tail: Seq<char>)
    requires
        rules.len() > 0,
        forall|k: int| 0 <= k < rules.len() ==> plain_rule(#[trigger] rules[k]),
        plain_filler(tail),
    ensures
        block_at(style_sheet(rules, tail), 0) is Some,
        blocks_urls_from(style_sheet(rules, tail), 0) == sheet_urls(rules),
{
    let t = style_sheet(rules, tail);
    assert(t.subrange(0, t.len() as int) =~= t);
    lemma_style_sheet_urls(t, 0, rules, tail);
}

/// Extraction round trip on a whole style sheet: rules `@font-face{...}`
/// whose `src` declaration lists `url(x)format(woff)` alternatives of plain
/// URLs, among other declarations, with ordinary text between and after the
/// rules, give back every `x`, rule after rule, in listed order.
pub proof fn lemma_style_sheet_round_trip(rules: Seq<RuleText>, tail: Seq<char>)
    requires
        rules.len() > 0,
        forall|k: int| 0 <= k < rules.len() ==> plain_rule(#[trigger] rules[k]),
        plain_filler(tail),
    ensures
        css_text_urls(style_sheet(rules, tail)) == Ok::<Seq<Seq<char>>, ExtractError>(sheet_urls(rules)),
{
    lemma_style_sheet_stripped(rules, tail);
    lemma_style_sheet_blocks(rules, tail);
    assert(plain_rule(rules[0]));
    assert(sheet_urls(rules) == rules[0].urls + sheet_urls(rules.drop_first()));
    lemma_css_text_urls_of(style_sheet(rules, tail), sheet_urls(rules));
}

/// One URL per rule: `N` rules, each with one `src: url(x) format(woff)`
/// declaration among other declarations, with ordinary text between them,
/// give exactly the `N` values `x`, in document order.
pub proof fn lemma_one_url_per_rule(rules: Seq<RuleText>, tail: Seq<char>)
    requires
        rules.len() > 0,
        forall|k: int| 0 <= k < rules.len() ==> plain_rule(#[trigger] rules[k]) && rules[k].urls.len() == 1,
        plain_filler(tail),
    ensures
        css_text_urls(style_sheet(rules, tail)) == Ok::<Seq<Seq<char>>, ExtractError>(
            rules.map_values(|r: RuleText| r.urls[0]),
        ),
{
    lemma_style_sheet_round_trip(rules, tail);
    lemma_single_urls(rules);
}

proof fn lemma_single_urls(rules: Seq<RuleText>)
    requires
        forall|k: int| 0 <= k < rules.len() ==> (#[trigger] rules[k]).urls.len() == 1,
    ensures
        sheet_urls(rules) == rules.map_values(|r: RuleText| r.urls[0]),
    decreases rules.len(),
{
    if rules.len() > 0 {
        assert forall|k: int| 0 <= k < rules.drop_first().len() implies (#[trigger] rules.drop_first()[k]).urls.len() == 1 by {
            assert(rules.drop_first()[k] == rules[k + 1]);
        }
        lemma_single_urls(rules.drop_first());
        assert(rules[0].urls =~= seq![rules[0].urls[0]]);
        assert(rules.map_values(|r: RuleText| r.urls[0]) =~= seq![rules[0].urls[0]] + rules.drop_first().map_values(
            |r: RuleText| r.urls[0],
        ));
    } else {
        assert(rules.map_values(|r: RuleText| r.urls[0]) =~= Seq::<Seq<char>>::empty());
    }
}

/// Several alternatives in one declaration: a rule whose `src` lists the
/// alternatives `url(x) format(woff)` for `xs` gives exactly `xs`, in the
/// listed order.
pub proof fn lemma_alternatives_in_order(xs: Seq<Seq<char>>)
    requires
        xs.len() > 0,
        forall|k: int| 0 <= k < xs.len() ==> plain_url(#[trigger] xs[k]),
    ensures
        css_text_urls(
            style_sheet(seq![RuleText { filler: seq![], before: seq![], urls: xs, after: seq![] }], seq![]),
        ) == Ok::<Seq<Seq<char>>, ExtractError>(xs),
{
    let r = RuleText { filler: seq![], before: seq![], urls: xs, after: seq![] };
    let rules = seq![r];
    assert(rules[0] == r);
    lemma_style_sheet_round_trip(rules, seq![]);
    assert(rules.drop_first() =~= Seq::<RuleText>::empty());
    assert(sheet_urls(Seq::<RuleText>::empty()) == Seq::<Seq<char>>::empty());
    assert(sheet_urls(rules) =~= xs);
}

} // verus!
