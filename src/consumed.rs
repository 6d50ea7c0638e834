//! The consumed-event set and the set of sessions whose elicitation is active.
//!
//! An input event that an elicitation round-trip absorbed is marked here, and
//! the session actor drops it the first time it checks the mark.

use vstd::prelude::*;

verus! {

/// Ids of input events absorbed by an elicitation, each held once.
pub struct ConsumedEvents {
    ids: Vec<u128>,
}

impl View for ConsumedEvents {
    type V = Set<u128>;

    closed spec fn view(&self) -> Set<u128> {
        self.ids@.to_set()
    }
}

impl ConsumedEvents {
    /// No id is held twice.
    pub closed spec fn wf(&self) -> bool {
        self.ids@.no_duplicates()
    }

    pub fn new() -> (r: Self)
        ensures
            r.wf(),
            r@ == Set::<u128>::empty(),
    {
        let r = ConsumedEvents { ids: Vec::new() };
        assert(r@ =~= Set::<u128>::empty());
        r
    }

    fn position(&self, id: u128) -> (r: Option<usize>)
        ensures
            match r {
                Some(i) => i < self.ids.len() && self.ids@[i as int] == id,
                None => !self.ids@.contains(id),
            },
    {
        let mut i: usize = 0;
        while i < self.ids.len()
            invariant
                i <= self.ids.len(),
                forall|k: int| 0 <= k < i ==> self.ids@[k] != id,
            decreases self.ids.len() - i,
        {
            if self.ids[i] == id {
                return Some(i);
            }
            i = i + 1;
        }
        None
    }

    /// Whether `id` is marked, without changing the set.
    pub fn contains(&self, id: u128) -> (r: bool)
        ensures
            r == self@.contains(id),
    {
        self.position(id).is_some()
    }

    /// Marks `id` as absorbed by an elicitation.
    pub fn mark_consumed(&mut self, id: u128)
        requires
            old(self).wf(),
        ensures
            final(self).wf(),
            final(self)@ == old(self)@.insert(id),
    {
        match self.position(id) {
            Some(_) => {
                assert(self@.insert(id) =~= self@);
            },
            None => {
                self.ids.push(id);
                proof {
                    old(self).ids@.lemma_push_to_set_commute(id);
                }
            },
        }
    }

    /// Reports whether `id` was marked, and removes the mark.
    pub fn check_and_remove(&mut self, id: u128) -> (r: bool)
        requires
            old(self).wf(),
        ensures
            final(self).wf(),
            r == old(self)@.contains(id),
            final(self)@ == old(self)@.remove(id),
    {
        match self.position(id) {
            Some(i) => {
                let ghost before = self.ids@;
                self.ids.remove(i);
                proof {
                    assert(self.ids@ =~= before.remove(i as int));
                    lemma_remove_index_to_set(before, i as int);
                }
                true
            },
            None => {
                assert(old(self)@.remove(id) =~= old(self)@);
                false
            },
        }
    }
}

/// Once an id is marked, the first check reports it and every later check
/// does not: an event absorbed by an elicitation is processed at most once.
pub proof fn lemma_consumed_at_most_once(s: Set<u128>, id: u128)
    ensures
        s.insert(id).contains(id),
        !s.insert(id).remove(id).contains(id),
        !s.insert(id).remove(id).remove(id).contains(id),
        s.insert(id).remove(id).remove(id) == s.insert(id).remove(id),
{
    assert(s.insert(id).remove(id).remove(id) =~= s.insert(id).remove(id));
}

/// Sessions whose elicitation handler currently owns the next user turn.
pub struct ActiveElicitations {
    sessions: Vec<String>,
}

impl View for ActiveElicitations {
    type V = Set<Seq<char>>;

    closed spec fn view(&self) -> Set<Seq<char>> {
        self.names().to_set()
    }
}

/// Removing the element at `i` of a sequence without duplicates removes
/// exactly that element from its set.
proof fn lemma_remove_index_to_set<A>(s: Seq<A>, i: int)
    requires
        s.no_duplicates(),
        0 <= i < s.len(),
    ensures
        s.remove(i).no_duplicates(),
        s.remove(i).to_set() == s.to_set().remove(s[i]),
{
    let t = s.remove(i);
    assert forall|x: A| #[trigger] t.to_set().contains(x) == s.to_set().remove(s[i]).contains(x) by {
        if t.contains(x) {
            let k = choose|k: int| 0 <= k < t.len() && t[k] == x;
            if k < i {
                assert(s[k] == x);
            } else {
                assert(s[k + 1] == x);
            }
        }
        if s.to_set().remove(s[i]).contains(x) {
            let k = choose|k: int| 0 <= k < s.len() && s[k] == x;
            assert(k != i);
            if k < i {
                assert(t[k] == x);
            } else {
                assert(t[k - 1] == x);
            }
        }
    }
    assert(t.to_set() =~= s.to_set().remove(s[i]));
}

impl ActiveElicitations {
    spec fn names(&self) -> Seq<Seq<char>> {
        self.sessions@.map_values(|s: String| s@)
    }

    /// No session is held twice.
    pub closed spec fn wf(&self) -> bool {
        self.names().no_duplicates()
    }

    pub fn new() -> (r: Self)
        ensures
            r.wf(),
            r@ == Set::<Seq<char>>::empty(),
    {
        let r = ActiveElicitations { sessions: Vec::new() };
        assert(r.names() =~= Seq::<Seq<char>>::empty());
        assert(r@ =~= Set::<Seq<char>>::empty());
        r
    }

    fn position(&self, session_id: &str) -> (r: Option<usize>)
        ensures
            match r {
                Some(i) => i < self.sessions.len() && self.names()[i as int] == session_id@,
                None => !self@.contains(session_id@),
            },
    {
        let key = session_id.to_string();
        let mut i: usize = 0;
        while i < self.sessions.len()
            invariant
                i <= self.sessions.len(),
                key@ == session_id@,
                forall|k: int| 0 <= k < i ==> self.names()[k] != session_id@,
            decreases self.sessions.len() - i,
        {
            if self.sessions[i] == key {
                return Some(i);
            }
            i = i + 1;
        }
        None
    }
}

/// Marks the elicitation of `session_id` active or inactive.
pub fn set_elicitation_active(set: &mut ActiveElicitations, session_id: &str, active: bool)
    requires
        old(set).wf(),
    ensures
        final(set).wf(),
        active ==> final(set)@ == old(set)@.insert(session_id@),
        !active ==> final(set)@ == old(set)@.remove(session_id@),
{
    let ghost before = set.names();
    match set.position(session_id) {
        Some(i) => {
            if active {
                assert(set@.insert(session_id@) =~= set@);
            } else {
                set.sessions.remove(i);
                proof {
                    assert(set.names() =~= before.remove(i as int));
                    lemma_remove_index_to_set(before, i as int);
                }
            }
        },
        None => {
            if active {
                set.sessions.push(session_id.to_string());
                assert(set.names() =~= before.push(session_id@));
                proof {
                    before.lemma_push_to_set_commute(session_id@);
                }
            } else {
                assert(set@.remove(session_id@) =~= set@);
            }
        },
    }
}

/// Whether the elicitation of `session_id` is active.
pub fn is_elicitation_active(set: &ActiveElicitations, session_id: &str) -> (r: bool)
    ensures
        r == set@.contains(session_id@),
{
    set.position(session_id).is_some()
}

} // verus!
