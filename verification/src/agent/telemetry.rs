use vstd::prelude::*;

use crate::order::{item_key, key_less, stable_sort, str_less, SortKey};
use crate::text::{str_eq, to_chars};

verus! {

/// Token totals for a single provider. (Costs are kept beside these by the
/// caller: they are floating-point amounts.)
#[derive(Debug, Clone, Copy, PartialEq, Eq)]
pub struct ProviderStats {
    pub total_prompt_tokens: u32,
    pub total_completion_tokens: u32,
}

/// Tracks token usage per provider, in the order providers were first seen.
pub struct Telemetry {
    pub provider_stats: Vec<(String, ProviderStats)>,
}

/// The stats recorded for `p` in `entries` (the first entry naming it).
pub open spec fn lookup(entries: Seq<(String, ProviderStats)>, p: Seq<char>) -> Option<ProviderStats>
    decreases entries.len(),
{
    if entries.len() == 0 {
        None
    } else if entries[0].0@ == p {
        Some(entries[0].1)
    } else {
        lookup(entries.drop_first(), p)
    }
}

/// The totals as a map from provider to stats.
pub open spec fn totals_of(entries: Seq<(String, ProviderStats)>) -> Map<Seq<char>, ProviderStats> {
    Map::new(|p: Seq<char>| lookup(entries, p) is Some, |p: Seq<char>| lookup(entries, p)->0)
}

/// The totals of `p` after adding `prompt` and `completion` tokens.
pub open spec fn added(m: Map<Seq<char>, ProviderStats>, p: Seq<char>, prompt: u32, completion: u32) -> ProviderStats {
    if m.contains_key(p) {
        ProviderStats {
            total_prompt_tokens: (m[p].total_prompt_tokens + prompt) as u32,
            total_completion_tokens: (m[p].total_completion_tokens + completion) as u32,
        }
    } else {
        ProviderStats { total_prompt_tokens: prompt, total_completion_tokens: completion }
    }
}

/// Looking up in a list with one more entry at the end.
proof fn lemma_lookup_push(entries: Seq<(String, ProviderStats)>, e: (String, ProviderStats), q: Seq<char>)
    ensures
        lookup(entries.push(e), q) == (if lookup(entries, q) is Some {
            lookup(entries, q)
        } else if e.0@ == q {
            Some(e.1)
        } else {
            None
        }),
    decreases entries.len(),
{
    if entries.len() > 0 {
        assert(entries.push(e)[0] == entries[0]);
        assert(entries.push(e).drop_first() == entries.drop_first().push(e));
        lemma_lookup_push(entries.drop_first(), e, q);
    } else {
        assert(entries.push(e)[0] == e);
        assert(entries.push(e).drop_first() == entries);
    }
}

/// Looking up after replacing the stats of entry `i`, the first entry naming
/// its provider.
proof fn lemma_lookup_update(entries: Seq<(String, ProviderStats)>, i: int, s: ProviderStats, q: Seq<char>)
    requires
        0 <= i < entries.len(),
        forall|k: int| 0 <= k < i ==> entries[k].0@ != entries[i].0@,
    ensures
        lookup(entries.update(i, (entries[i].0, s)), q) == (if q == entries[i].0@ {
            Some(s)
        } else {
            lookup(entries, q)
        }),
    decreases entries.len(),
{
    let u = entries.update(i, (entries[i].0, s));
    if i > 0 {
        assert(u[0] == entries[0]);
        assert(u.drop_first() == entries.drop_first().update(i - 1, (entries[i].0, s)));
        lemma_lookup_update(entries.drop_first(), i - 1, s, q);
    } else {
        assert(u[0] == (entries[0].0, s));
        assert(u.drop_first() == entries.drop_first());
    }
}

/// An entry's provider is found at the first entry naming it.
proof fn lemma_lookup_found(entries: Seq<(String, ProviderStats)>, i: int)
    requires
        0 <= i < entries.len(),
        forall|k: int| 0 <= k < i ==> entries[k].0@ != entries[i].0@,
    ensures
        lookup(entries, entries[i].0@) == Some(entries[i].1),
    decreases entries.len(),
{
    if i > 0 {
        lemma_lookup_found(entries.drop_first(), i - 1);
    }
}

/// A provider named by no entry is not found.
proof fn lemma_lookup_absent(entries: Seq<(String, ProviderStats)>, q: Seq<char>)
    requires
        forall|k: int| 0 <= k < entries.len() ==> entries[k].0@ != q,
    ensures
        lookup(entries, q) is None,
    decreases entries.len(),
{
    if entries.len() > 0 {
        lemma_lookup_absent(entries.drop_first(), q);
    }
}

impl Telemetry {
    /// No provider appears twice.
    pub open spec fn wf(&self) -> bool {
        forall|i: int, j: int|
            0 <= i < j < self.provider_stats@.len() ==> self.provider_stats@[i].0@
                != self.provider_stats@[j].0@
    }

    /// The totals of each provider seen so far.
    pub open spec fn totals(&self) -> Map<Seq<char>, ProviderStats> {
        totals_of(self.provider_stats@)
    }

    /// No provider seen yet.
    pub fn new() -> (t: Self)
        ensures
            t.wf(),
            t.provider_stats@.len() == 0,
            t.totals() == Map::<Seq<char>, ProviderStats>::empty(),
    {
        let t = Telemetry { provider_stats: Vec::new() };
        assert(t.totals() =~= Map::<Seq<char>, ProviderStats>::empty());
        t
    }

    /// Adds one request's tokens to the provider's totals (starting from
    /// zero for a provider not seen before); other providers are unchanged.
    pub fn update(&mut self, provider: &str, prompt_tokens: u32, completion_tokens: u32)
        requires
            old(self).wf(),
            old(self).totals().contains_key(provider@) ==> {
                &&& old(self).totals()[provider@].total_prompt_tokens + prompt_tokens <= u32::MAX
                &&& old(self).totals()[provider@].total_completion_tokens + completion_tokens
                    <= u32::MAX
            },
        ensures
            final(self).wf(),
            final(self).totals() == old(self).totals().insert(
                provider@,
                added(old(self).totals(), provider@, prompt_tokens, completion_tokens),
            ),
    {
        let ghost old_entries = self.provider_stats@;
        let ghost old_totals = self.totals();
        let mut i: usize = 0;
        let mut found = false;
        while i < self.provider_stats.len() && !found
            invariant
                i <= self.provider_stats.len(),
                self.provider_stats@ == old_entries,
                found ==> i < self.provider_stats.len() && self.provider_stats@[i as int].0@
                    == provider@,
                forall|k: int| 0 <= k < i ==> self.provider_stats@[k].0@ != provider@,
            decreases self.provider_stats.len() - i + (if found { 0int } else { 1int }),
        {
            if str_eq(self.provider_stats[i].0.as_str(), provider) {
                found = true;
            } else {
                i = i + 1;
            }
        }
        if found {
            proof {
                lemma_lookup_found(old_entries, i as int);
            }
            let old_stats = self.provider_stats[i].1;
            let new_stats = ProviderStats {
                total_prompt_tokens: old_stats.total_prompt_tokens + prompt_tokens,
                total_completion_tokens: old_stats.total_completion_tokens + completion_tokens,
            };
            let name = self.provider_stats[i].0.clone();
            self.provider_stats[i] = (name, new_stats);
            proof {
                assert(self.provider_stats@ == old_entries.update(
                    i as int,
                    (old_entries[i as int].0, new_stats),
                ));
                assert forall|q: Seq<char>| #[trigger]
                    lookup(self.provider_stats@, q) == (if q == provider@ {
                        Some(new_stats)
                    } else {
                        lookup(old_entries, q)
                    }) by {
                    lemma_lookup_update(old_entries, i as int, new_stats, q);
                }
                assert(self.totals() =~= old_totals.insert(
                    provider@,
                    added(old_totals, provider@, prompt_tokens, completion_tokens),
                ));
            }
        } else {
            proof {
                lemma_lookup_absent(old_entries, provider@);
            }
            let name = crate::text::copy_str(provider);
            let e = (name, ProviderStats { total_prompt_tokens: prompt_tokens, total_completion_tokens: completion_tokens });
            let ghost eg = e;
            self.provider_stats.push(e);
            proof {
                assert forall|q: Seq<char>| #[trigger]
                    lookup(self.provider_stats@, q) == (if lookup(old_entries, q) is Some {
                        lookup(old_entries, q)
                    } else if eg.0@ == q {
                        Some(eg.1)
                    } else {
                        None
                    }) by {
                    lemma_lookup_push(old_entries, eg, q);
                }
                assert(self.totals() =~= old_totals.insert(
                    provider@,
                    added(old_totals, provider@, prompt_tokens, completion_tokens),
                ));
            }
        }
    }
}


/// Some entry of `entries` names the provider of `e` and has its stats.
pub open spec fn has_entry(entries: Seq<(String, ProviderStats)>, e: (String, ProviderStats)) -> bool {
    exists|k: int| 0 <= k < entries.len() && e.0@ == (#[trigger] entries[k]).0@ && e.1 == entries[k].1
}

impl Telemetry {
    /// The entries ordered by provider name (code-point order), as the
    /// summaries list them.
    pub fn sorted_entries(&self) -> (r: Vec<(String, ProviderStats)>)
        requires
            self.wf(),
        ensures
            r@.len() == self.provider_stats@.len(),
            forall|i: int, j: int| 0 <= i < j < r@.len() ==> str_less(r@[i].0@, r@[j].0@),
            forall|i: int| 0 <= i < r@.len() ==> has_entry(self.provider_stats@, #[trigger] r@[i]),
    {
        let mut keyed: Vec<(SortKey, (String, ProviderStats))> = Vec::new();
        let mut i: usize = 0;
        while i < self.provider_stats.len()
            invariant
                i <= self.provider_stats.len(),
                keyed@.len() == i,
                forall|k: int|
                    0 <= k < i ==> (#[trigger] keyed@[k]).0.text@ == self.provider_stats@[k].0@
                        && keyed@[k].0@ == (0u8, self.provider_stats@[k].0@) && keyed@[k].0.rank == 0 && keyed@[k].1.0@ == self.provider_stats@[k].0@
                        && keyed@[k].1.1 == self.provider_stats@[k].1,
            decreases self.provider_stats.len() - i,
        {
            let name = self.provider_stats[i].0.clone();
            let key = SortKey { rank: 0, text: to_chars(name.as_str()) };
            keyed.push((key, (name, self.provider_stats[i].1)));
            i = i + 1;
        }
        let ghost inp = keyed@;
        let sorted = stable_sort(keyed);
        let ghost kf = |x: (SortKey, (String, ProviderStats))| item_key(x);
        let ghost p = choose|p: Seq<int>| crate::order::is_sort_witness(inp, sorted@, kf, p);
        let mut r: Vec<(String, ProviderStats)> = Vec::new();
        let mut rest = sorted;
        let ghost all = rest@;
        let n = rest.len();
        let mut j: usize = 0;
        while j < n
            invariant
                n == all.len(),
                j <= n,
                rest@ == all.skip(j as int),
                r@.len() == j,
                forall|k: int| 0 <= k < j ==> (#[trigger] r@[k]).0@ == all[k].1.0@ && r@[k].1 == all[k].1.1,
            decreases n - j,
        {
            let (_, entry) = rest.remove(0);
            assert(all.skip(j as int)[0] == all[j as int]);
            assert(all.skip(j as int).remove(0) == all.skip(j + 1));
            r.push(entry);
            j = j + 1;
        }
        proof {
            assert(crate::order::is_sort_witness(inp, all, kf, p));
            assert forall|a: int, b: int| 0 <= a < b < r@.len() implies str_less(
                r@[a].0@,
                r@[b].0@,
            ) by {
                assert(all[a] == inp[p[a]]);
                assert(all[b] == inp[p[b]]);
                assert(0 <= p[a] < inp.len());
                assert(0 <= p[b] < inp.len());
                assert(inp[p[a]].0.text@ == self.provider_stats@[p[a]].0@);
                assert(inp[p[b]].0.text@ == self.provider_stats@[p[b]].0@);
                assert(p[a] != p[b]);
                if p[a] < p[b] {
                    assert(self.provider_stats@[p[a]].0@ != self.provider_stats@[p[b]].0@);
                } else {
                    assert(self.provider_stats@[p[b]].0@ != self.provider_stats@[p[a]].0@);
                }
                assert(kf(all[a]) == all[a].0@);
                assert(kf(all[b]) == all[b].0@);
                assert(key_less(all[a].0@, all[b].0@) || (all[a].0@ == all[b].0@ && p[a] < p[b]));
            }
            assert forall|a: int| 0 <= a < r@.len() implies has_entry(
                self.provider_stats@,
                #[trigger] r@[a],
            ) by {
                assert(all[a] == inp[p[a]]);
                let k = p[a];
                assert(0 <= k < inp.len());
                assert(r@[a].0@ == self.provider_stats@[k].0@ && r@[a].1 == self.provider_stats@[k].1);
            }
        }
        r
    }
}

/// Two updates of the same provider add up: the totals are those of one
/// update by the summed token counts.
pub proof fn lemma_updates_accumulate(
    m: Map<Seq<char>, ProviderStats>,
    p: Seq<char>,
    a: u32,
    b: u32,
    c: u32,
    d: u32,
)
    requires
        m.contains_key(p) ==> m[p].total_prompt_tokens + a + c <= u32::MAX
            && m[p].total_completion_tokens + b + d <= u32::MAX,
        a + c <= u32::MAX,
        b + d <= u32::MAX,
    ensures
        ({
            let once = m.insert(p, added(m, p, a, b));
            once.insert(p, added(once, p, c, d)) == m.insert(
                p,
                added(m, p, (a + c) as u32, (b + d) as u32),
            )
        }),
{
    let once = m.insert(p, added(m, p, a, b));
    assert(once.insert(p, added(once, p, c, d)) =~= m.insert(
        p,
        added(m, p, (a + c) as u32, (b + d) as u32),
    ));
}

/// Updates of different providers can be applied in either order.
pub proof fn lemma_updates_commute(
    m: Map<Seq<char>, ProviderStats>,
    p: Seq<char>,
    a: u32,
    b: u32,
    q: Seq<char>,
    c: u32,
    d: u32,
)
    requires
        p != q,
    ensures
        ({
            let pq = m.insert(p, added(m, p, a, b));
            let qp = m.insert(q, added(m, q, c, d));
            pq.insert(q, added(pq, q, c, d)) == qp.insert(p, added(qp, p, a, b))
        }),
{
    let pq = m.insert(p, added(m, p, a, b));
    let qp = m.insert(q, added(m, q, c, d));
    assert(pq.insert(q, added(pq, q, c, d)) =~= qp.insert(p, added(qp, p, a, b)));
}

} // verus!
