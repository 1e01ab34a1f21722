//! The envelope in which units of work travel between pipeline stages: the
//! payload, the span of the seed URL it belongs to, and a trace-context
//! carrier, a map from header names to values that a propagator fills and
//! reads.

use vstd::prelude::*;

verus! {

#[verifier::external_type_specification]
#[verifier::external_body]
pub struct ExSpan(tracing::Span);

/// The value that the last entry of `entries` with key `k` gives `k`.
pub open spec fn lookup(entries: Seq<(String, String)>, k: Seq<char>) -> Option<Seq<char>>
    decreases entries.len(),
{
    if entries.len() == 0 {
        None
    } else if entries.last().0@ == k {
        Some(entries.last().1@)
    } else {
        lookup(entries.drop_last(), k)
    }
}

proof fn lemma_lookup_has_key(entries: Seq<(String, String)>, k: Seq<char>)
    ensures
        lookup(entries, k) is Some <==> exists|j: int| 0 <= j < entries.len() && #[trigger] entries[j].0@ == k,
    decreases entries.len(),
{
    if entries.len() > 0 {
        lemma_lookup_has_key(entries.drop_last(), k);
        if lookup(entries.drop_last(), k) is Some {
            let j = choose|j: int| 0 <= j < entries.drop_last().len() && #[trigger] entries.drop_last()[j].0@ == k;
            assert(entries[j].0@ == k);
        }
        if exists|j: int| 0 <= j < entries.len() && #[trigger] entries[j].0@ == k {
            let j = choose|j: int| 0 <= j < entries.len() && #[trigger] entries[j].0@ == k;
            if j < entries.len() - 1 {
                assert(entries.drop_last()[j].0@ == k);
            }
        }
    }
}

/// The characters of a list of names.
pub open spec fn names_view(v: Seq<&str>) -> Seq<Seq<char>> {
    v.map_values(|k: &str| k@)
}

/// A unit of work with its trace context.
#[derive(Debug)]
pub struct ChannelMessage<T> {
    context: Vec<(String, String)>,
    root_span: tracing::Span,
    body: T,
}

impl<T> ChannelMessage<T> {
    /// The payload.
    pub closed spec fn body(&self) -> T {
        self.body
    }

    /// The span of the seed URL that the payload belongs to.
    pub closed spec fn span(&self) -> tracing::Span {
        self.root_span
    }

    /// The trace context, from header names to values.
    pub closed spec fn context(&self) -> Map<Seq<char>, Seq<char>> {
        Map::new(|k: Seq<char>| lookup(self.context@, k) is Some, |k: Seq<char>| lookup(self.context@, k)->Some_0)
    }

    /// A message with an empty trace context.
    pub fn new(root_span: tracing::Span, body: T) -> (r: Self)
        ensures
            r.body() == body,
            r.span() == root_span,
            r.context() == Map::<Seq<char>, Seq<char>>::empty(),
    {
        let r = ChannelMessage { context: Vec::new(), root_span, body };
        assert(r.context() =~= Map::<Seq<char>, Seq<char>>::empty());
        r
    }

    /// The payload.
    pub fn unwrap(&self) -> (r: &T)
        ensures
            *r == self.body(),
    {
        &self.body
    }

    /// The span of the seed URL that the payload belongs to.
    pub fn root_span(&self) -> (r: &tracing::Span)
        ensures
            *r == self.span(),
    {
        &self.root_span
    }

    /// Gives `key` the value `value` in the trace context.
    pub fn set(&mut self, key: &str, value: String)
        ensures
            final(self).context() == old(self).context().insert(key@, value@),
            final(self).body() == old(self).body(),
            final(self).span() == old(self).span(),
    {
        let ghost before = self.context@;
        self.context.push((key.to_owned(), value));
        proof {
            assert(self.context@.drop_last() == before);
        }
        assert(self.context() =~= old(self).context().insert(key@, value@));
    }

    /// The value of `key` in the trace context.
    pub fn get(&self, key: &str) -> (r: Option<&str>)
        ensures
            match r {
                Some(v) => self.context().contains_key(key@) && self.context()[key@] == v@,
                None => !self.context().contains_key(key@),
            },
    {
        let wanted = key.to_owned();
        let mut i = self.context.len();
        assert(self.context@.take(i as int) =~= self.context@);
        while i > 0
            invariant
                i <= self.context@.len(),
                wanted@ == key@,
                lookup(self.context@, key@) == lookup(self.context@.take(i as int), key@),
            decreases i,
        {
            assert(self.context@.take(i as int).drop_last() =~= self.context@.take(i as int - 1));
            if self.context[i - 1].0 == wanted {
                return Some(self.context[i - 1].1.as_str());
            }
            i = i - 1;
        }
        assert(self.context@.take(0) =~= Seq::<(String, String)>::empty());
        None
    }

    /// The names in the trace context, each once.
    pub fn keys(&self) -> (r: Vec<&str>)
        ensures
            names_view(r@).no_duplicates(),
            names_view(r@).to_set() == self.context().dom(),
    {
        let mut out: Vec<&str> = Vec::new();
        let mut i: usize = 0;
        while i < self.context.len()
            invariant
                i <= self.context@.len(),
                names_view(out@).no_duplicates(),
                forall|k: Seq<char>| #[trigger] names_view(out@).contains(k) <==> exists|j: int|
                    0 <= j < i && #[trigger] self.context@[j].0@ == k,
            decreases self.context@.len() - i,
        {
            let name = self.context[i].0.as_str();
            let mut seen = false;
            let mut m: usize = 0;
            while m < out.len()
                invariant
                    m <= out@.len(),
                    seen == exists|j: int| 0 <= j < m && out@[j]@ == name@,
                decreases out@.len() - m,
            {
                if chars_match(out[m], name) {
                    seen = true;
                }
                m = m + 1;
            }
            let ghost before = names_view(out@);
            proof {
                if seen {
                    let x = choose|x: int| 0 <= x < out@.len() && out@[x]@ == name@;
                    assert(before[x] == name@);
                } else {
                    assert forall|x: int| 0 <= x < before.len() implies before[x] != name@ by {
                        assert(out@[x]@ == before[x]);
                    }
                }
            }
            if !seen {
                out.push(name);
                proof {
                    let after = names_view(out@);
                    assert(after =~= before.push(name@));
                    assert forall|x: int, y: int| 0 <= x < after.len() && 0 <= y < after.len() && x != y implies after[x]
                        != after[y] by {
                        if x < before.len() && y < before.len() {
                            assert(before[x] != before[y]);
                        }
                    }
                }
            }
            proof {
                let after = names_view(out@);
                assert forall|k: Seq<char>| after.contains(k) <==> (before.contains(k) || k == name@) by {
                    if after.contains(k) {
                        let x = choose|x: int| 0 <= x < after.len() && after[x] == k;
                        if x < before.len() {
                            assert(before[x] == k);
                        }
                    }
                    if before.contains(k) {
                        let x = choose|x: int| 0 <= x < before.len() && before[x] == k;
                        assert(after[x] == k);
                    }
                    if k == name@ && !seen {
                        assert(after[before.len() as int] == k);
                    }
                }
                assert forall|k: Seq<char>| #[trigger] after.contains(k) <==> exists|j: int|
                    0 <= j < i + 1 && #[trigger] self.context@[j].0@ == k by {
                    if k == name@ {
                        assert(self.context@[i as int].0@ == k);
                    }
                    if exists|j: int| 0 <= j < i + 1 && #[trigger] self.context@[j].0@ == k {
                        let j = choose|j: int| 0 <= j < i + 1 && #[trigger] self.context@[j].0@ == k;
                        if j < i {
                            assert(before.contains(k));
                        }
                    }
                }
            }
            i = i + 1;
        }
        proof {
            assert forall|k: Seq<char>| names_view(out@).to_set().contains(k) <==> self.context().dom().contains(k) by {
                lemma_lookup_has_key(self.context@, k);
            }
            assert(names_view(out@).to_set() =~= self.context().dom());
        }
        out
    }
}

fn chars_match(a: &str, b: &str) -> (r: bool)
    ensures
        r == (a@ == b@),
{
    crate::text::chars_equal(crate::text::chars_of(a).as_slice(), crate::text::chars_of(b).as_slice())
}

} // verus!
