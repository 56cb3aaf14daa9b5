//! What a client connection is subscribed to.
use vstd::prelude::*;

use crate::namespace::{EventType, SubscribeCommand, UnsubscribeCommand, event_type_code};
use crate::text::{chars_eq, chars_of};

verus! {

/// The variables whose value changes a connection receives, and whether it receives
/// tree changes.
pub struct Subscriptions {
    var_ids: Vec<String>,
    tree_changes: bool,
}

/// The set of character sequences of a list of strings.
pub open spec fn id_set(v: Seq<String>) -> Set<Seq<char>> {
    Set::new(|x: Seq<char>| exists|i: int| 0 <= i < v.len() && v[i]@ == x)
}

/// Whether the event list of a command names event type `e`.
pub open spec fn names_event(events: Seq<i32>, e: EventType) -> bool {
    events.contains(event_type_code(e))
}

impl View for Subscriptions {
    type V = (Set<Seq<char>>, bool);

    closed spec fn view(&self) -> (Set<Seq<char>>, bool) {
        (id_set(self.var_ids@), self.tree_changes)
    }
}

/// The state after a subscribe command: its variables are added when it names value
/// events, and tree changes are switched on when it names tree events.
pub open spec fn after_subscribe(s: (Set<Seq<char>>, bool), events: Seq<i32>, ids: Set<Seq<char>>) -> (
    Set<Seq<char>>,
    bool,
) {
    (
        if names_event(events, EventType::VarValues) {
            s.0.union(ids)
        } else {
            s.0
        },
        s.1 || names_event(events, EventType::TreeChange),
    )
}

/// The state after an unsubscribe command: its variables are removed when it names
/// value events, and tree changes are switched off when it names tree events.
pub open spec fn after_unsubscribe(s: (Set<Seq<char>>, bool), events: Seq<i32>, ids: Set<Seq<char>>) -> (
    Set<Seq<char>>,
    bool,
) {
    (
        if names_event(events, EventType::VarValues) {
            s.0.difference(ids)
        } else {
            s.0
        },
        if names_event(events, EventType::TreeChange) {
            false
        } else {
            s.1
        },
    )
}

fn names_event_exec(events: &Vec<i32>, e: EventType) -> (r: bool)
    ensures
        r == names_event(events@, e),
{
    let code = e.code();
    let mut i: usize = 0;
    while i < events.len()
        invariant
            i <= events.len(),
            code == event_type_code(e),
            forall|j: int| 0 <= j < i ==> events@[j] != code,
        decreases events.len() - i,
    {
        if events[i] == code {
            proof {
                assert(events@[i as int] == code);
            }
            return true;
        }
        i += 1;
    }
    false
}

fn position_of(v: &Vec<String>, s: &[char]) -> (r: Option<usize>)
    ensures
        match r {
            Some(i) => i < v@.len() && v@[i as int]@ == s@,
            None => forall|j: int| 0 <= j < v@.len() ==> v@[j]@ != s@,
        },
{
    let mut i: usize = 0;
    while i < v.len()
        invariant
            i <= v.len(),
            forall|j: int| 0 <= j < i ==> v@[j]@ != s@,
        decreases v.len() - i,
    {
        let c = chars_of(v[i].as_str());
        if chars_eq(c.as_slice(), s) {
            return Some(i);
        }
        i += 1;
    }
    None
}

impl Subscriptions {
    /// No variable, no tree changes.
    pub fn new() -> (s: Subscriptions)
        ensures
            s@ == (Set::<Seq<char>>::empty(), false),
    {
        let s = Subscriptions { var_ids: Vec::new(), tree_changes: false };
        proof {
            assert(id_set(s.var_ids@) =~= Set::<Seq<char>>::empty());
        }
        s
    }

    /// Whether value changes of `var_id` are delivered.
    pub fn is_subscribed(&self, var_id: &str) -> (r: bool)
        ensures
            r == self@.0.contains(var_id@),
    {
        let c = chars_of(var_id);
        match position_of(&self.var_ids, c.as_slice()) {
            Some(_) => true,
            None => false,
        }
    }

    /// Whether tree changes are delivered.
    pub fn wants_tree_changes(&self) -> (r: bool)
        ensures
            r == self@.1,
    {
        self.tree_changes
    }

    fn add_id(&mut self, id: &String)
        ensures
            final(self)@.0 == old(self)@.0.insert(id@),
            final(self)@.1 == old(self)@.1,
    {
        let c = chars_of(id.as_str());
        match position_of(&self.var_ids, c.as_slice()) {
            Some(_) => {
                proof {
                    assert(id_set(self.var_ids@) =~= id_set(self.var_ids@).insert(id@));
                }
            },
            None => {
                let ghost before = self.var_ids@;
                self.var_ids.push(id.clone());
                proof {
                    assert forall|x: Seq<char>| #![auto]
                        id_set(self.var_ids@).contains(x) == id_set(before).insert(id@).contains(
                            x,
                        ) by {
                        if id_set(before).contains(x) {
                            let i = choose|i: int| 0 <= i < before.len() && before[i]@ == x;
                            assert(self.var_ids@[i] == before[i]);
                        }
                        if id_set(self.var_ids@).contains(x) {
                            let i = choose|i: int|
                                0 <= i < self.var_ids@.len() && self.var_ids@[i]@ == x;
                            if i < before.len() {
                                assert(self.var_ids@[i] == before[i]);
                            }
                        }
                        if x == id@ {
                            assert(self.var_ids@[before.len() as int]@ == x);
                        }
                    }
                    assert(id_set(self.var_ids@) =~= id_set(before).insert(id@));
                }
            },
        }
    }

    fn remove_id(&mut self, id: &String)
        ensures
            final(self)@.0 == old(self)@.0.remove(id@),
            final(self)@.1 == old(self)@.1,
    {
        let c = chars_of(id.as_str());
        let ghost before = self.var_ids@;
        let mut kept: Vec<String> = Vec::new();
        let mut i: usize = 0;
        while i < self.var_ids.len()
            invariant
                i <= self.var_ids@.len(),
                self.var_ids@ == before,
                c@ == id@,
                forall|x: Seq<char>| #![auto]
                    id_set(kept@).contains(x) <==> (x != id@ && exists|j: int|
                        0 <= j < i && before[j]@ == x),
            decreases self.var_ids@.len() - i,
        {
            let e = chars_of(self.var_ids[i].as_str());
            let ghost old_kept = kept@;
            if !chars_eq(e.as_slice(), c.as_slice()) {
                kept.push(self.var_ids[i].clone());
            }
            proof {
                assert forall|x: Seq<char>| #![auto]
                    id_set(kept@).contains(x) <==> (x != id@ && exists|j: int|
                        0 <= j < i + 1 && before[j]@ == x) by {
                    if id_set(kept@).contains(x) {
                        let k = choose|k: int| 0 <= k < kept@.len() && kept@[k]@ == x;
                        if k < old_kept.len() {
                            assert(kept@[k] == old_kept[k]);
                            assert(id_set(old_kept).contains(x));
                            let j = choose|j: int| 0 <= j < i && before[j]@ == x;
                            assert(0 <= j < i + 1 && before[j]@ == x);
                        } else {
                            assert(before[i as int]@ == x);
                            assert(e@ != c@);
                        }
                    }
                    if x != id@ && exists|j: int| 0 <= j < i + 1 && before[j]@ == x {
                        let j = choose|j: int| 0 <= j < i + 1 && before[j]@ == x;
                        if j < i {
                            assert(exists|j2: int| 0 <= j2 < i && before[j2]@ == x);
                            assert(id_set(old_kept).contains(x));
                            let k = choose|k: int| 0 <= k < old_kept.len() && old_kept[k]@ == x;
                            assert(kept@[k] == old_kept[k]);
                        } else {
                            assert(kept@[old_kept.len() as int]@ == x);
                        }
                    }
                }
            }
            i += 1;
        }
        self.var_ids = kept;
        proof {
            assert(id_set(self.var_ids@) =~= id_set(before).remove(id@));
        }
    }

    /// Adds the ids of `ids` to the subscribed variables.
    pub fn add_all(&mut self, ids: &Vec<String>)
        ensures
            final(self)@ == (old(self)@.0.union(id_set(ids@)), old(self)@.1),
    {
        let ghost start = self@;
        let mut i: usize = 0;
        while i < ids.len()
            invariant
                i <= ids@.len(),
                self@.1 == start.1,
                self@.0 == start.0.union(id_set(ids@.take(i as int))),
            decreases ids@.len() - i,
        {
            self.add_id(&ids[i]);
            proof {
                let t = ids@.take(i + 1);
                assert(t.drop_last() =~= ids@.take(i as int));
                assert forall|x: Seq<char>| #![auto]
                    id_set(t).contains(x) == id_set(ids@.take(i as int)).insert(
                        ids@[i as int]@,
                    ).contains(x) by {
                    if id_set(t).contains(x) {
                        let k = choose|k: int| 0 <= k < t.len() && t[k]@ == x;
                        if k < i {
                            assert(ids@.take(i as int)[k] == t[k]);
                        }
                    }
                    if id_set(ids@.take(i as int)).contains(x) {
                        let k = choose|k: int|
                            0 <= k < i && ids@.take(i as int)[k]@ == x;
                        assert(t[k] == ids@.take(i as int)[k]);
                    }
                    if x == ids@[i as int]@ {
                        assert(t[i as int]@ == x);
                    }
                }
                assert(id_set(t) =~= id_set(ids@.take(i as int)).insert(
                    ids@[i as int]@,
                ));
                assert(self@.0 =~= start.0.union(id_set(t)));
            }
            i += 1;
        }
        proof {
            assert(ids@.take(ids@.len() as int) =~= ids@);
        }
    }

    /// Removes the ids of `ids` from the subscribed variables.
    pub fn remove_all(&mut self, ids: &Vec<String>)
        ensures
            final(self)@ == (old(self)@.0.difference(id_set(ids@)), old(self)@.1),
    {
        let ghost start = self@;
        let mut i: usize = 0;
        while i < ids.len()
            invariant
                i <= ids@.len(),
                self@.1 == start.1,
                self@.0 == start.0.difference(id_set(ids@.take(i as int))),
            decreases ids@.len() - i,
        {
            self.remove_id(&ids[i]);
            proof {
                let t = ids@.take(i + 1);
                assert forall|x: Seq<char>| #![auto]
                    id_set(t).contains(x) == id_set(ids@.take(i as int)).insert(
                        ids@[i as int]@,
                    ).contains(x) by {
                    if id_set(t).contains(x) {
                        let k = choose|k: int| 0 <= k < t.len() && t[k]@ == x;
                        if k < i {
                            assert(ids@.take(i as int)[k] == t[k]);
                        }
                    }
                    if id_set(ids@.take(i as int)).contains(x) {
                        let k = choose|k: int|
                            0 <= k < i && ids@.take(i as int)[k]@ == x;
                        assert(t[k] == ids@.take(i as int)[k]);
                    }
                    if x == ids@[i as int]@ {
                        assert(t[i as int]@ == x);
                    }
                }
                assert(id_set(t) =~= id_set(ids@.take(i as int)).insert(
                    ids@[i as int]@,
                ));
                assert(self@.0 =~= start.0.difference(id_set(t)));
            }
            i += 1;
        }
        proof {
            assert(ids@.take(ids@.len() as int) =~= ids@);
        }
    }

    /// Applies a subscribe command (see `after_subscribe`).
    pub fn subscribe(&mut self, cmd: &SubscribeCommand)
        ensures
            final(self)@ == after_subscribe(old(self)@, cmd.events@, id_set(cmd.var_ids@)),
    {
        let ghost start = self@;
        if names_event_exec(&cmd.events, EventType::VarValues) {
            self.add_all(&cmd.var_ids);
        }
        if names_event_exec(&cmd.events, EventType::TreeChange) {
            self.tree_changes = true;
        }
    }

    /// Applies an unsubscribe command (see `after_unsubscribe`).
    pub fn unsubscribe(&mut self, cmd: &UnsubscribeCommand)
        ensures
            final(self)@ == after_unsubscribe(old(self)@, cmd.events@, id_set(cmd.var_ids@)),
    {
        let ghost start = self@;
        if names_event_exec(&cmd.events, EventType::VarValues) {
            self.remove_all(&cmd.var_ids);
        }
        if names_event_exec(&cmd.events, EventType::TreeChange) {
            self.tree_changes = false;
        }
    }
}

/// Unsubscribing from what was just subscribed, with the same event types, leaves
/// exactly the variables subscribed before that are not among the command's ids, and
/// switches tree changes off when tree events were named.
pub proof fn law_unsubscribe_undoes_subscribe(
    s: (Set<Seq<char>>, bool),
    events: Seq<i32>,
    ids: Set<Seq<char>>,
)
    ensures
        after_unsubscribe(after_subscribe(s, events, ids), events, ids).0 == (if names_event(
            events,
            EventType::VarValues,
        ) {
            s.0.difference(ids)
        } else {
            s.0
        }),
        names_event(events, EventType::TreeChange) ==> !after_unsubscribe(
            after_subscribe(s, events, ids),
            events,
            ids,
        ).1,
        !names_event(events, EventType::TreeChange) ==> after_unsubscribe(
            after_subscribe(s, events, ids),
            events,
            ids,
        ).1 == s.1,
{
    if names_event(events, EventType::VarValues) {
        assert(s.0.union(ids).difference(ids) =~= s.0.difference(ids));
    }
}

/// Subscribing twice with the same command is the same as subscribing once.
pub proof fn law_subscribe_idempotent(s: (Set<Seq<char>>, bool), events: Seq<i32>, ids: Set<Seq<char>>)
    ensures
        after_subscribe(after_subscribe(s, events, ids), events, ids) == after_subscribe(
            s,
            events,
            ids,
        ),
{
    if names_event(events, EventType::VarValues) {
        assert(s.0.union(ids).union(ids) =~= s.0.union(ids));
    }
}

} // verus!
