//! A small map from document URIs to values, kept as a list of entries in
//! which no URI occurs twice.
use vstd::prelude::*;
use crate::text::str_eq;

verus! {

/// Values by document URI.
pub struct UriMap<V> {
    entries: Vec<(String, V)>,
}

/// No URI is listed twice.
pub open spec fn keys_unique<V>(s: Seq<(String, V)>) -> bool {
    forall|i: int, j: int| 0 <= i < j < s.len() ==> (#[trigger] s[i]).0@ != (#[trigger] s[j]).0@
}

/// The map that a list of entries holds.
pub open spec fn entries_map<V>(s: Seq<(String, V)>) -> Map<Seq<char>, V>
    decreases s.len(),
{
    if s.len() == 0 {
        Map::empty()
    } else {
        entries_map(s.drop_last()).insert(s.last().0@, s.last().1)
    }
}

/// A URI is mapped exactly when an entry has it, and then to that entry's
/// value.
proof fn lemma_entries_map<V>(s: Seq<(String, V)>, k: Seq<char>)
    requires
        keys_unique(s),
    ensures
        entries_map(s).contains_key(k) <==> exists|i: int| 0 <= i < s.len() && (#[trigger] s[i]).0@ == k,
        forall|i: int| 0 <= i < s.len() && (#[trigger] s[i]).0@ == k ==> entries_map(s)[k] == s[i].1,
    decreases s.len(),
{
    if s.len() > 0 {
        let t = s.drop_last();
        assert(keys_unique(t)) by {
            assert forall|i: int, j: int| 0 <= i < j < t.len() implies (#[trigger] t[i]).0@ != (#[trigger] t[j]).0@ by {
                assert(t[i] == s[i] && t[j] == s[j]);
            }
        }
        lemma_entries_map(t, k);
        if entries_map(s).contains_key(k) && s.last().0@ != k {
            let i = choose|i: int| 0 <= i < t.len() && (#[trigger] t[i]).0@ == k;
            assert(s[i] == t[i]);
        }
        assert forall|i: int| 0 <= i < s.len() && (#[trigger] s[i]).0@ == k implies entries_map(s)[k] == s[i].1 by {
            if i < s.len() - 1 {
                assert(t[i] == s[i]);
                assert(s[i].0@ != s[s.len() - 1].0@);
            }
        }
        assert forall|i: int| 0 <= i < s.len() && (#[trigger] s[i]).0@ == k implies entries_map(s).contains_key(k) by {
            if i < s.len() - 1 {
                assert(t[i] == s[i]);
            }
        }
    }
}

/// Taking an entry out of the list drops its URI from the map.
proof fn lemma_remove_at<V>(s: Seq<(String, V)>, i: int)
    requires
        keys_unique(s),
        0 <= i < s.len(),
    ensures
        keys_unique(s.remove(i)),
        entries_map(s.remove(i)) == entries_map(s).remove(s[i].0@),
{
    let t = s.remove(i);
    let k = s[i].0@;
    assert forall|a: int| 0 <= a < t.len() implies #[trigger] t[a] == s[if a < i { a } else { a + 1 }] by {}
    assert(keys_unique(t)) by {
        assert forall|a: int, b: int| 0 <= a < b < t.len() implies (#[trigger] t[a]).0@ != (#[trigger] t[b]).0@ by {
            assert(t[a] == s[if a < i { a } else { a + 1 }]);
            assert(t[b] == s[if b < i { b } else { b + 1 }]);
        }
    }
    assert forall|kk: Seq<char>| #[trigger] entries_map(t).contains_key(kk) == entries_map(s).remove(k).contains_key(kk) by {
        lemma_entries_map(t, kk);
        lemma_entries_map(s, kk);
        if entries_map(t).contains_key(kk) {
            let a = choose|a: int| 0 <= a < t.len() && (#[trigger] t[a]).0@ == kk;
            assert(t[a] == s[if a < i { a } else { a + 1 }]);
        }
        if kk != k && entries_map(s).contains_key(kk) {
            let a = choose|a: int| 0 <= a < s.len() && (#[trigger] s[a]).0@ == kk;
            let a2 = if a < i { a } else { a - 1 };
            assert(t[a2] == s[a]);
        }
    }
    assert forall|kk: Seq<char>| entries_map(t).contains_key(kk) implies #[trigger] entries_map(t)[kk] == entries_map(s).remove(k)[kk] by {
        lemma_entries_map(t, kk);
        lemma_entries_map(s, kk);
        let a = choose|a: int| 0 <= a < t.len() && (#[trigger] t[a]).0@ == kk;
        assert(t[a] == s[if a < i { a } else { a + 1 }]);
    }
    assert(entries_map(t) =~= entries_map(s).remove(k));
}

impl<V> View for UriMap<V> {
    type V = Map<Seq<char>, V>;

    closed spec fn view(&self) -> Map<Seq<char>, V> {
        entries_map(self.entries@)
    }
}

impl<V> UriMap<V> {
    /// No URI is listed twice.
    pub closed spec fn wf(&self) -> bool {
        keys_unique(self.entries@)
    }

    /// A map with no entries.
    pub fn new() -> (r: Self)
        ensures
            r.wf(),
            r@ == Map::<Seq<char>, V>::empty(),
    {
        UriMap { entries: Vec::new() }
    }

    /// Where the entry of `uri` is listed.
    fn find(&self, uri: &str) -> (r: Option<usize>)
        requires
            self.wf(),
        ensures
            match r {
                Some(i) => i < self.entries@.len() && self.entries@[i as int].0@ == uri@,
                None => forall|i: int| 0 <= i < self.entries@.len() ==> (#[trigger] self.entries@[i]).0@ != uri@,
            },
    {
        let mut i: usize = 0;
        while i < self.entries.len()
            invariant
                i <= self.entries@.len(),
                forall|j: int| 0 <= j < i ==> (#[trigger] self.entries@[j]).0@ != uri@,
            decreases self.entries.len() - i,
        {
            if str_eq(self.entries[i].0.as_str(), uri) {
                return Some(i);
            }
            i = i + 1;
        }
        None
    }

    /// The value of a URI.
    pub fn get(&self, uri: &str) -> (r: Option<&V>)
        requires
            self.wf(),
        ensures
            match r {
                Some(v) => self@.contains_key(uri@) && *v == self@[uri@],
                None => !self@.contains_key(uri@),
            },
    {
        proof {
            lemma_entries_map(self.entries@, uri@);
        }
        match self.find(uri) {
            Some(i) => Some(&self.entries[i].1),
            None => None,
        }
    }

    /// Takes the value of a URI out of the map.
    pub fn remove(&mut self, uri: &str) -> (r: Option<V>)
        requires
            old(self).wf(),
        ensures
            final(self).wf(),
            final(self)@ == old(self)@.remove(uri@),
            match r {
                Some(v) => old(self)@.contains_key(uri@) && v == old(self)@[uri@],
                None => !old(self)@.contains_key(uri@),
            },
    {
        let ghost old_s = self.entries@;
        proof {
            lemma_entries_map(old_s, uri@);
        }
        match self.find(uri) {
            Some(i) => {
                let (_, v) = self.entries.remove(i);
                proof {
                    lemma_remove_at(old_s, i as int);
                    assert(self.entries@ =~= old_s.remove(i as int));
                }
                Some(v)
            },
            None => {
                assert(entries_map(old_s).remove(uri@) =~= entries_map(old_s));
                None
            },
        }
    }

    /// Sets the value of a URI, replacing any it had.
    pub fn insert(&mut self, uri: String, value: V)
        requires
            old(self).wf(),
        ensures
            final(self).wf(),
            final(self)@ == old(self)@.insert(uri@, value),
    {
        let ghost old_m = self@;
        let _ = self.remove(uri.as_str());
        let ghost mid = self.entries@;
        proof {
            lemma_entries_map(mid, uri@);
        }
        self.entries.push((uri, value));
        proof {
            let s = self.entries@;
            assert(s.drop_last() =~= mid);
            assert(keys_unique(s)) by {
                assert forall|a: int, b: int| 0 <= a < b < s.len() implies (#[trigger] s[a]).0@ != (#[trigger] s[b]).0@ by {
                    assert(s[a] == mid[a]);
                    if b < s.len() - 1 {
                        assert(s[b] == mid[b]);
                    }
                }
            }
            assert(entries_map(s) =~= old_m.insert(s.last().0@, s.last().1));
        }
    }

    /// The URIs in the map, each once.
    pub fn keys(&self) -> (r: Vec<String>)
        requires
            self.wf(),
        ensures
            forall|k: Seq<char>| self@.contains_key(k) <==> exists|i: int| 0 <= i < r@.len() && (#[trigger] r@[i])@ == k,
            forall|i: int, j: int| 0 <= i < j < r@.len() ==> (#[trigger] r@[i])@ != (#[trigger] r@[j])@,
    {
        let mut out: Vec<String> = Vec::new();
        let mut i: usize = 0;
        while i < self.entries.len()
            invariant
                i <= self.entries@.len(),
                out@.len() == i,
                forall|j: int| 0 <= j < i ==> (#[trigger] out@[j])@ == self.entries@[j].0@,
            decreases self.entries.len() - i,
        {
            out.push(self.entries[i].0.clone());
            i = i + 1;
        }
        proof {
            assert forall|k: Seq<char>| self@.contains_key(k) <==> exists|i: int| 0 <= i < out@.len() && (#[trigger] out@[i])@ == k by {
                lemma_entries_map(self.entries@, k);
                if self@.contains_key(k) {
                    let j = choose|j: int| 0 <= j < self.entries@.len() && (#[trigger] self.entries@[j]).0@ == k;
                    assert(out@[j]@ == k);
                }
                if exists|i: int| 0 <= i < out@.len() && (#[trigger] out@[i])@ == k {
                    let j = choose|j: int| 0 <= j < out@.len() && (#[trigger] out@[j])@ == k;
                    assert(self.entries@[j].0@ == k);
                }
            }
            assert forall|a: int, b: int| 0 <= a < b < out@.len() implies (#[trigger] out@[a])@ != (#[trigger] out@[b])@ by {
                assert(self.entries@[a].0@ != self.entries@[b].0@);
            }
        }
        out
    }

    /// Drops every entry.
    pub fn clear(&mut self)
        ensures
            final(self).wf(),
            final(self)@ == Map::<Seq<char>, V>::empty(),
    {
        self.entries = Vec::new();
    }
}

} // verus!
