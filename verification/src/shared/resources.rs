use vstd::prelude::*;

use super::event::{ConnectionHandle, Enveloppe};

verus! {

/// A message waiting in a queue, with the peer that sent it.
pub type Queued = (ConnectionHandle, Enveloppe);

/// The map from a list of (key, queue) entries to what it stands for: each
/// key's characters to the queue stored under it.
pub open spec fn entries_view(s: Seq<(String, Vec<Queued>)>) -> Map<Seq<char>, Seq<Queued>>
    decreases s.len(),
{
    if s.len() == 0 {
        Map::empty()
    } else {
        entries_view(s.drop_last()).insert(s.last().0@, s.last().1@)
    }
}

/// No key is stored twice.
pub open spec fn keys_unique(s: Seq<(String, Vec<Queued>)>) -> bool {
    forall|i: int, j: int| 0 <= i < j < s.len() ==> #[trigger] s[i].0@ != #[trigger] s[j].0@
}

/// The queue under a key, or the empty queue where the key is absent.
pub open spec fn queue_of(m: Map<Seq<char>, Seq<Queued>>, k: Seq<char>) -> Seq<Queued> {
    if m.contains_key(k) {
        m[k]
    } else {
        Seq::empty()
    }
}

/// The message queues, one per message type, keyed by the type's name.
///
/// The queues are kept as a list of (name, queue) entries in which no name
/// occurs twice, rather than in `std::collections::HashMap<String, _>`:
/// vstd's contracts for that map hold only where `obeys_key_model::<String>()`
/// does, which vstd does not establish; and vstd's `StringHashMap::remove`
/// does not hand back the queue it removes, which routing needs.
pub struct Connections {
    queues: Vec<(String, Vec<Queued>)>,
}

impl View for Connections {
    type V = Map<Seq<char>, Seq<Queued>>;

    closed spec fn view(&self) -> Map<Seq<char>, Seq<Queued>> {
        entries_view(self.queues@)
    }
}

proof fn lemma_absent(s: Seq<(String, Vec<Queued>)>, k: Seq<char>)
    requires
        forall|i: int| 0 <= i < s.len() ==> #[trigger] s[i].0@ != k,
    ensures
        !entries_view(s).contains_key(k),
    decreases s.len(),
{
    if s.len() > 0 {
        assert(s.last().0@ != k);
        lemma_absent(s.drop_last(), k);
    }
}

proof fn lemma_present(s: Seq<(String, Vec<Queued>)>, k: Seq<char>)
    requires
        entries_view(s).contains_key(k),
    ensures
        exists|i: int| 0 <= i < s.len() && #[trigger] s[i].0@ == k,
    decreases s.len(),
{
    if s.last().0@ != k {
        let d = s.drop_last();
        lemma_present(d, k);
        let i = choose|i: int| 0 <= i < d.len() && #[trigger] d[i].0@ == k;
        assert(s[i] == d[i]);
    } else {
        assert(s[s.len() - 1].0@ == k);
    }
}

proof fn lemma_lookup(s: Seq<(String, Vec<Queued>)>, i: int)
    requires
        keys_unique(s),
        0 <= i < s.len(),
    ensures
        entries_view(s).contains_key(s[i].0@),
        entries_view(s)[s[i].0@] == s[i].1@,
    decreases s.len(),
{
    if i < s.len() - 1 {
        let d = s.drop_last();
        assert(d[i] == s[i]);
        assert(s[i].0@ != s[s.len() - 1].0@);
        lemma_lookup(d, i);
    }
}

proof fn lemma_unique_remove(s: Seq<(String, Vec<Queued>)>, i: int)
    requires
        keys_unique(s),
        0 <= i < s.len(),
    ensures
        keys_unique(s.remove(i)),
{
    let r = s.remove(i);
    assert forall|a: int, b: int| 0 <= a < b < r.len() implies #[trigger] r[a].0@ != #[trigger] r[b].0@ by {
        let a2 = if a < i { a } else { a + 1 };
        let b2 = if b < i { b } else { b + 1 };
        assert(r[a] == s[a2]);
        assert(r[b] == s[b2]);
        assert(s[a2].0@ != s[b2].0@);
    }
}

proof fn lemma_remove(s: Seq<(String, Vec<Queued>)>, i: int)
    requires
        keys_unique(s),
        0 <= i < s.len(),
    ensures
        entries_view(s.remove(i)) == entries_view(s).remove(s[i].0@),
    decreases s.len(),
{
    let n = s.len();
    let d = s.drop_last();
    if i == n - 1 {
        assert(s.remove(i) =~= d);
        assert forall|j: int| 0 <= j < d.len() implies #[trigger] d[j].0@ != s[i].0@ by {
            assert(d[j] == s[j]);
        }
        lemma_absent(d, s[i].0@);
        assert(entries_view(s).remove(s[i].0@) =~= entries_view(d));
    } else {
        assert(keys_unique(d)) by {
            assert forall|a: int, b: int| 0 <= a < b < d.len() implies #[trigger] d[a].0@ != #[trigger] d[b].0@ by {
                assert(d[a] == s[a] && d[b] == s[b]);
            }
        }
        assert(d[i] == s[i]);
        lemma_remove(d, i);
        assert(s.remove(i).drop_last() =~= d.remove(i));
        assert(s.remove(i).last() == s.last());
        assert(s[i].0@ != s.last().0@);
        assert(entries_view(s.remove(i)) =~= entries_view(s).remove(s[i].0@));
    }
}

proof fn lemma_push(s: Seq<(String, Vec<Queued>)>, e: (String, Vec<Queued>))
    ensures
        entries_view(s.push(e)) == entries_view(s).insert(e.0@, e.1@),
{
    assert(s.push(e).drop_last() =~= s);
}

proof fn lemma_unique_push(s: Seq<(String, Vec<Queued>)>, e: (String, Vec<Queued>))
    requires
        keys_unique(s),
        !entries_view(s).contains_key(e.0@),
    ensures
        keys_unique(s.push(e)),
{
    let p = s.push(e);
    assert forall|a: int, b: int| 0 <= a < b < p.len() implies #[trigger] p[a].0@ != #[trigger] p[b].0@ by {
        assert(p[a] == s[a]);
        if b == s.len() {
            lemma_lookup(s, a);
        } else {
            assert(p[b] == s[b]);
        }
    }
}

proof fn lemma_len(s: Seq<(String, Vec<Queued>)>)
    requires
        keys_unique(s),
    ensures
        entries_view(s).dom().finite(),
        entries_view(s).dom().len() == s.len(),
    decreases s.len(),
{
    if s.len() > 0 {
        let d = s.drop_last();
        assert(keys_unique(d)) by {
            assert forall|a: int, b: int| 0 <= a < b < d.len() implies #[trigger] d[a].0@ != #[trigger] d[b].0@ by {
                assert(d[a] == s[a] && d[b] == s[b]);
            }
        }
        lemma_len(d);
        assert forall|j: int| 0 <= j < d.len() implies #[trigger] d[j].0@ != s.last().0@ by {
            assert(d[j] == s[j]);
        }
        lemma_absent(d, s.last().0@);
    }
}

impl Connections {
    #[verifier::type_invariant]
    spec fn keys_are_unique(self) -> bool {
        keys_unique(self.queues@)
    }

    /// No queue at all.
    pub fn new() -> (r: Connections)
        ensures
            r@ == Map::<Seq<char>, Seq<Queued>>::empty(),
    {
        let r = Connections { queues: Vec::new() };
        assert(r@ =~= Map::<Seq<char>, Seq<Queued>>::empty());
        r
    }

    /// Where the queue under `key` is stored, if there is one.
    fn find(&self, key: &String) -> (r: Option<usize>)
        ensures
            match r {
                Some(i) => i < self.queues@.len() && self.queues@[i as int].0@ == key@
                    && self@.contains_key(key@) && self@[key@] == self.queues@[i as int].1@,
                None => !self@.contains_key(key@),
            },
    {
        proof {
            use_type_invariant(self);
        }
        let n = self.queues.len();
        let mut i: usize = 0;
        while i < n
            invariant
                n == self.queues@.len(),
                keys_unique(self.queues@),
                i <= n,
                forall|j: int| 0 <= j < i ==> #[trigger] self.queues@[j].0@ != key@,
            decreases n - i,
        {
            if self.queues[i].0 == *key {
                proof {
                    lemma_lookup(self.queues@, i as int);
                }
                return Some(i);
            }
            i = i + 1;
        }
        proof {
            lemma_absent(self.queues@, key@);
        }
        None
    }

    /// The number of queues.
    pub fn len(&self) -> (r: usize)
        ensures
            r == self@.len(),
    {
        proof {
            use_type_invariant(self);
            lemma_len(self.queues@);
        }
        self.queues.len()
    }

    /// The names of the types that have a queue, each once.
    pub fn keys(&self) -> (r: Vec<String>)
        ensures
            r@.len() == self@.len(),
            forall|i: int| 0 <= i < r@.len() ==> self@.contains_key(#[trigger] r@[i]@),
            forall|k: Seq<char>|
                self@.contains_key(k) ==> exists|i: int| 0 <= i < r@.len() && #[trigger] r@[i]@ == k,
            forall|i: int, j: int| 0 <= i < j < r@.len() ==> #[trigger] r@[i]@ != #[trigger] r@[j]@,
    {
        proof {
            use_type_invariant(self);
            lemma_len(self.queues@);
        }
        let n = self.queues.len();
        let mut r: Vec<String> = Vec::new();
        let mut i: usize = 0;
        while i < n
            invariant
                n == self.queues@.len(),
                i <= n,
                r@.len() == i,
                forall|j: int| 0 <= j < i ==> #[trigger] r@[j]@ == self.queues@[j].0@,
            decreases n - i,
        {
            r.push(self.queues[i].0.clone());
            i = i + 1;
        }
        proof {
            let s = self.queues@;
            assert forall|j: int| 0 <= j < r@.len() implies self@.contains_key(#[trigger] r@[j]@) by {
                lemma_lookup(s, j);
            }
            assert forall|k: Seq<char>| self@.contains_key(k) implies exists|j: int|
                0 <= j < r@.len() && #[trigger] r@[j]@ == k by {
                lemma_present(s, k);
                let j = choose|j: int| 0 <= j < s.len() && #[trigger] s[j].0@ == k;
                assert(r@[j]@ == k);
            }
            assert forall|a: int, b: int| 0 <= a < b < r@.len() implies #[trigger] r@[a]@
                != #[trigger] r@[b]@ by {
                assert(s[a].0@ != s[b].0@);
            }
        }
        r
    }

    /// Whether there is no queue.
    pub fn is_empty(&self) -> (r: bool)
        ensures
            r == (self@.len() == 0),
    {
        self.len() == 0
    }

    /// Whether a queue is stored under `key`.
    pub fn contains_key(&self, key: &String) -> (r: bool)
        ensures
            r == self@.contains_key(key@),
    {
        self.find(key).is_some()
    }

    /// The queue stored under `key`, if there is one.
    pub fn get(&self, key: &String) -> (r: Option<&Vec<Queued>>)
        ensures
            match r {
                Some(v) => self@.contains_key(key@) && v@ == self@[key@],
                None => !self@.contains_key(key@),
            },
    {
        match self.find(key) {
            Some(i) => Some(&self.queues[i].1),
            None => None,
        }
    }

    /// Takes the queue stored under `key` out of the map.
    pub fn remove(&mut self, key: &String) -> (r: Option<Vec<Queued>>)
        ensures
            final(self)@ == old(self)@.remove(key@),
            match r {
                Some(v) => old(self)@.contains_key(key@) && v@ == old(self)@[key@],
                None => !old(self)@.contains_key(key@),
            },
    {
        proof {
            use_type_invariant(&*self);
        }
        match self.find(key) {
            Some(i) => {
                proof {
                    lemma_unique_remove(self.queues@, i as int);
                    lemma_remove(self.queues@, i as int);
                }
                let mut queues = Vec::new();
                std::mem::swap(&mut queues, &mut self.queues);
                let entry = queues.remove(i);
                self.queues = queues;
                Some(entry.1)
            },
            None => {
                proof {
                    assert(self@.remove(key@) =~= self@);
                }
                None
            },
        }
    }

    /// Stores `value` under `key`, and gives back the queue it replaces.
    pub fn insert(&mut self, key: String, value: Vec<Queued>) -> (r: Option<Vec<Queued>>)
        ensures
            final(self)@ == old(self)@.insert(key@, value@),
            match r {
                Some(v) => old(self)@.contains_key(key@) && v@ == old(self)@[key@],
                None => !old(self)@.contains_key(key@),
            },
    {
        let previous = self.remove(&key);
        proof {
            use_type_invariant(&*self);
            lemma_unique_push(self.queues@, (key, value));
            lemma_push(self.queues@, (key, value));
        }
        let mut queues = Vec::new();
        std::mem::swap(&mut queues, &mut self.queues);
        queues.push((key, value));
        self.queues = queues;
        proof {
            assert(self@ =~= old(self)@.insert(key@, value@));
        }
        previous
    }
}

} // verus!
