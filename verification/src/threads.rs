//! The sets and the map that the session keeps: which chats are busy, which
//! threads were resumed, and which thread belongs to which chat.
use crate::chars::str_same;
use vstd::prelude::*;

verus! {

/// A set of chat ids.
#[derive(Debug, Clone)]
pub struct ChatSet {
    pub items: Vec<i64>,
}

impl ChatSet {
    /// The mathematical value.
    pub open spec fn view(&self) -> Set<i64> {
        Set::new(|c: i64| self.items@.contains(c))
    }

    /// The empty set.
    pub fn new() -> (r: ChatSet)
        ensures
            r@ == Set::<i64>::empty(),
    {
        let r = ChatSet { items: Vec::new() };
        assert(r@ =~= Set::<i64>::empty());
        r
    }

    /// Whether `chat_id` is in the set.
    pub fn contains(&self, chat_id: i64) -> (r: bool)
        ensures
            r == self@.contains(chat_id),
    {
        let mut i: usize = 0;
        while i < self.items.len()
            invariant
                i <= self.items.len(),
                forall|j: int| 0 <= j < i ==> self.items@[j] != chat_id,
            decreases self.items.len() - i,
        {
            if self.items[i] == chat_id {
                return true;
            }
            i += 1;
        }
        false
    }

    /// Puts `chat_id` into the set.
    pub fn insert(&mut self, chat_id: i64)
        ensures
            final(self)@ == old(self)@.insert(chat_id),
    {
        if !self.contains(chat_id) {
            self.items.push(chat_id);
        }
        assert forall|c: i64| final(self)@.contains(c) == old(self)@.insert(chat_id).contains(
            c,
        ) by {
            if old(self).items@.contains(c) {
                let j = choose|j: int| 0 <= j < old(self).items@.len() && old(self).items@[j] == c;
                assert(self.items@[j] == c);
            }
            if c == chat_id && !old(self).items@.contains(c) {
                assert(self.items@[self.items@.len() - 1] == c);
            }
        }
        assert(final(self)@ =~= old(self)@.insert(chat_id));
    }

    /// Takes `chat_id` out of the set.
    pub fn remove(&mut self, chat_id: i64)
        ensures
            final(self)@ == old(self)@.remove(chat_id),
    {
        let mut kept: Vec<i64> = Vec::new();
        let mut i: usize = 0;
        while i < self.items.len()
            invariant
                i <= self.items.len(),
                self.items == old(self).items,
                forall|j: int| 0 <= j < kept.len() ==> kept@[j] != chat_id && self.items@.contains(
                    #[trigger] kept@[j],
                ),
                forall|j: int|
                    0 <= j < i && self.items@[j] != chat_id ==> kept@.contains(
                        #[trigger] self.items@[j],
                    ),
            decreases self.items.len() - i,
        {
            let c = self.items[i];
            if c != chat_id {
                let ghost before = kept@;
                kept.push(c);
                assert(kept@[kept@.len() - 1] == c);
                assert forall|j: int|
                    0 <= j < i + 1 && self.items@[j] != chat_id implies kept@.contains(
                    #[trigger] self.items@[j],
                ) by {
                    if j < i {
                        let t = choose|t: int| 0 <= t < before.len() && before[t] == self.items@[j];
                        assert(kept@[t] == self.items@[j]);
                    }
                }
            }
            i += 1;
        }
        self.items = kept;
        assert forall|c: i64| final(self)@.contains(c) == old(self)@.remove(chat_id).contains(
            c,
        ) by {
            if old(self).items@.contains(c) && c != chat_id {
                let j = choose|j: int| 0 <= j < old(self).items@.len() && old(self).items@[j] == c;
                assert(kept@.contains(old(self).items@[j]));
            }
        }
        assert(final(self)@ =~= old(self)@.remove(chat_id));
    }

    /// Removes each of `chats`.
    pub fn remove_all(&mut self, chats: &Vec<i64>)
        ensures
            final(self)@ == old(self)@.difference(chats@.to_set()),
    {
        let mut i: usize = 0;
        assert(self@ =~= old(self)@.difference(chats@.take(0).to_set()));
        while i < chats.len()
            invariant
                i <= chats.len(),
                self@ == old(self)@.difference(chats@.take(i as int).to_set()),
            decreases chats.len() - i,
        {
            let ghost before = self@;
            self.remove(chats[i]);
            proof {
                let shorter = chats@.take(i as int);
                let longer = chats@.take(i + 1);
                let done = shorter.to_set();
                let more = longer.to_set();
                assert forall|c: i64| more.contains(c) == done.insert(chats@[i as int]).contains(
                    c,
                ) by {
                    if more.contains(c) {
                        let j = choose|j: int| 0 <= j < longer.len() && longer[j] == c;
                        if j < i {
                            assert(shorter[j] == c);
                        }
                    }
                    if done.contains(c) {
                        let j = choose|j: int| 0 <= j < shorter.len() && shorter[j] == c;
                        assert(longer[j] == c);
                    }
                    if c == chats@[i as int] {
                        assert(longer[i as int] == c);
                    }
                }
                assert(more =~= done.insert(chats@[i as int]));
                assert(self@ =~= old(self)@.difference(more));
            }
            i += 1;
        }
        assert(chats@.take(chats.len() as int) =~= chats@);
    }

    /// Empties the set.
    pub fn clear(&mut self)
        ensures
            final(self)@ == Set::<i64>::empty(),
    {
        self.items = Vec::new();
        assert(final(self)@ =~= Set::<i64>::empty());
    }
}

/// A set of texts.
#[derive(Debug, Clone)]
pub struct TextSet {
    pub items: Vec<String>,
}

/// Some item of `items` holds the text `t`.
pub open spec fn holds_text(items: Seq<String>, t: Seq<char>) -> bool {
    exists|i: int| 0 <= i < items.len() && (#[trigger] items[i])@ == t
}

impl TextSet {
    /// The mathematical value.
    pub open spec fn view(&self) -> Set<Seq<char>> {
        Set::new(|t: Seq<char>| holds_text(self.items@, t))
    }

    /// The empty set.
    pub fn new() -> (r: TextSet)
        ensures
            r@ == Set::<Seq<char>>::empty(),
    {
        let r = TextSet { items: Vec::new() };
        assert(r@ =~= Set::<Seq<char>>::empty());
        r
    }

    /// Whether `text` is in the set.
    pub fn contains(&self, text: &str) -> (r: bool)
        ensures
            r == self@.contains(text@),
    {
        let mut i: usize = 0;
        while i < self.items.len()
            invariant
                i <= self.items.len(),
                forall|j: int| 0 <= j < i ==> (#[trigger] self.items@[j])@ != text@,
            decreases self.items.len() - i,
        {
            if str_same(self.items[i].as_str(), text) {
                return true;
            }
            i += 1;
        }
        false
    }

    /// Puts `text` into the set.
    pub fn insert(&mut self, text: String)
        ensures
            final(self)@ == old(self)@.insert(text@),
    {
        if !self.contains(text.as_str()) {
            self.items.push(text);
        }
        assert forall|t: Seq<char>| final(self)@.contains(t) == old(self)@.insert(text@).contains(
            t,
        ) by {
            if holds_text(old(self).items@, t) {
                let j = choose|j: int|
                    0 <= j < old(self).items@.len() && (#[trigger] old(self).items@[j])@ == t;
                assert(self.items@[j]@ == t);
            }
            if t == text@ && !holds_text(old(self).items@, t) {
                assert(self.items@[self.items@.len() - 1]@ == t);
            }
        }
        assert(final(self)@ =~= old(self)@.insert(text@));
    }

    /// Takes `text` out of the set.
    pub fn remove(&mut self, text: &str)
        ensures
            final(self)@ == old(self)@.remove(text@),
    {
        let mut i: usize = 0;
        while i < self.items.len()
            invariant
                i <= self.items.len(),
                forall|j: int| 0 <= j < i ==> (#[trigger] self.items@[j])@ != text@,
                forall|t: Seq<char>|
                    t != text@ ==> (holds_text(self.items@, t) == holds_text(old(self).items@, t)),
            decreases self.items.len() - i,
        {
            if str_same(self.items[i].as_str(), text) {
                let ghost before = self.items@;
                self.items.remove(i);
                assert forall|t: Seq<char>| t != text@ implies (holds_text(self.items@, t)
                    == holds_text(before, t)) by {
                    if holds_text(before, t) {
                        let j = choose|j: int| 0 <= j < before.len() && (#[trigger] before[j])@ == t;
                        if j < i {
                            assert(self.items@[j]@ == t);
                        } else {
                            assert(self.items@[j - 1]@ == t);
                        }
                    }
                    if holds_text(self.items@, t) {
                        let j = choose|j: int|
                            0 <= j < self.items@.len() && (#[trigger] self.items@[j])@ == t;
                        if j < i {
                            assert(before[j]@ == t);
                        } else {
                            assert(before[j + 1]@ == t);
                        }
                    }
                }
            } else {
                i += 1;
            }
        }
        assert(final(self)@ =~= old(self)@.remove(text@));
    }

    /// Empties the set.
    pub fn clear(&mut self)
        ensures
            final(self)@ == Set::<Seq<char>>::empty(),
    {
        self.items = Vec::new();
        assert(final(self)@ =~= Set::<Seq<char>>::empty());
    }
}

/// Index of the entry of `entries` for `chat_id`.
pub open spec fn entry_for(entries: Seq<(i64, String)>, chat_id: i64) -> Option<int> {
    if exists|i: int| 0 <= i < entries.len() && (#[trigger] entries[i]).0 == chat_id {
        Some(choose|i: int| 0 <= i < entries.len() && (#[trigger] entries[i]).0 == chat_id)
    } else {
        None
    }
}

/// No chat id occurs twice in `entries`.
pub open spec fn distinct_chats(entries: Seq<(i64, String)>) -> bool {
    forall|i: int, j: int|
        0 <= i < j < entries.len() ==> (#[trigger] entries[i]).0 != (#[trigger] entries[j]).0
}

/// The mapping that `entries` stands for.
pub open spec fn thread_map(entries: Seq<(i64, String)>) -> Map<i64, Seq<char>> {
    Map::new(
        |c: i64| entry_for(entries, c).is_some(),
        |c: i64| entries[entry_for(entries, c).unwrap()].1@,
    )
}

/// Each entry is found under its chat id.
pub proof fn lemma_thread_map_entry(entries: Seq<(i64, String)>, i: int)
    requires
        distinct_chats(entries),
        0 <= i < entries.len(),
    ensures
        thread_map(entries).contains_key(entries[i].0),
        thread_map(entries)[entries[i].0] == entries[i].1@,
        entry_for(entries, entries[i].0) == Some(i),
{
    let c = entries[i].0;
    let j = entry_for(entries, c).unwrap();
    if i < j {
        assert(entries[i].0 != entries[j].0);
    } else if j < i {
        assert(entries[j].0 != entries[i].0);
    }
}

/// The thread of each chat: at most one per chat.
#[derive(Debug, Clone)]
pub struct ChatThreads {
    pub entries: Vec<(i64, String)>,
}

impl ChatThreads {
    /// No chat id occurs twice.
    pub open spec fn wf(&self) -> bool {
        distinct_chats(self.entries@)
    }

    /// The mapping that the list stands for.
    pub open spec fn view(&self) -> Map<i64, Seq<char>> {
        thread_map(self.entries@)
    }

    /// The empty map.
    pub fn new() -> (r: ChatThreads)
        ensures
            r.wf(),
            r@ == Map::<i64, Seq<char>>::empty(),
    {
        let r = ChatThreads { entries: Vec::new() };
        assert(r@ =~= Map::<i64, Seq<char>>::empty());
        r
    }

    /// Whether no chat has a thread.
    pub fn is_empty(&self) -> (r: bool)
        requires
            self.wf(),
        ensures
            r == (self@ == Map::<i64, Seq<char>>::empty()),
    {
        if self.entries.len() == 0 {
            assert(self@ =~= Map::<i64, Seq<char>>::empty());
            true
        } else {
            proof {
                lemma_thread_map_entry(self.entries@, 0);
            }
            false
        }
    }

    fn position(&self, chat_id: i64) -> (r: Option<usize>)
        requires
            self.wf(),
        ensures
            match r {
                Some(i) => i < self.entries.len() && entry_for(self.entries@, chat_id) == Some(
                    i as int,
                ) && self.entries@[i as int].0 == chat_id,
                None => entry_for(self.entries@, chat_id).is_none(),
            },
    {
        let mut i: usize = 0;
        while i < self.entries.len()
            invariant
                i <= self.entries.len(),
                self.wf(),
                forall|j: int| 0 <= j < i ==> (#[trigger] self.entries@[j]).0 != chat_id,
            decreases self.entries.len() - i,
        {
            if self.entries[i].0 == chat_id {
                proof {
                    lemma_thread_map_entry(self.entries@, i as int);
                }
                return Some(i);
            }
            i += 1;
        }
        None
    }

    /// The thread of `chat_id`.
    pub fn get(&self, chat_id: i64) -> (r: Option<String>)
        requires
            self.wf(),
        ensures
            match r {
                Some(t) => self@.contains_key(chat_id) && self@[chat_id] == t@,
                None => !self@.contains_key(chat_id),
            },
    {
        match self.position(chat_id) {
            Some(i) => Some(self.entries[i].1.clone()),
            None => None,
        }
    }

    /// Gives `chat_id` the thread `thread_id`, in place of the one it had.
    pub fn insert(&mut self, chat_id: i64, thread_id: String)
        requires
            old(self).wf(),
        ensures
            final(self).wf(),
            final(self)@ == old(self)@.insert(chat_id, thread_id@),
    {
        let ghost before = self.entries@;
        let ghost text = thread_id@;
        let ghost mut at: int = 0;
        match self.position(chat_id) {
            Some(i) => {
                self.entries.remove(i);
                self.entries.insert(i, (chat_id, thread_id));
                assert(self.entries@ =~= before.update(i as int, self.entries@[i as int]));
                proof {
                    at = i as int;
                }
            },
            None => {
                self.entries.push((chat_id, thread_id));
                proof {
                    at = before.len() as int;
                }
            },
        }
        let ghost after = self.entries@;
        assert(0 <= at < after.len() && after[at].0 == chat_id && after[at].1@ == text);
        assert(forall|j: int| 0 <= j < before.len() && j != at ==> after[j] == before[j]);
        assert(forall|j: int| 0 <= j < before.len() && j == at ==> before[j].0 == chat_id);
        assert(distinct_chats(after)) by {
            assert forall|i: int, j: int| 0 <= i < j < after.len() implies (#[trigger] after[i]).0
                != (#[trigger] after[j]).0 by {
                if i < before.len() && j < before.len() {
                    assert(before[i].0 != before[j].0);
                    assert(after[i].0 == before[i].0);
                    assert(after[j].0 == before[j].0);
                } else {
                    assert(after[j].0 == chat_id);
                    assert(after[i].0 == before[i].0);
                }
            }
        }
        assert forall|c: i64| thread_map(after).contains_key(c) == thread_map(before).insert(
            chat_id,
            text,
        ).contains_key(c) by {
            if thread_map(before).contains_key(c) {
                let j = entry_for(before, c).unwrap();
                assert(after[j].0 == c);
            }
            if thread_map(after).contains_key(c) && c != chat_id {
                let j = entry_for(after, c).unwrap();
                assert(before[j].0 == c);
            }
            if c == chat_id {
                assert(after[at].0 == c);
            }
        }
        assert forall|c: i64| thread_map(after).contains_key(c) implies thread_map(after)[c]
            == thread_map(before).insert(chat_id, text)[c] by {
            let j = entry_for(after, c).unwrap();
            lemma_thread_map_entry(after, j);
            if c != chat_id {
                assert(before[j].0 == c);
                lemma_thread_map_entry(before, j);
            }
        }
        assert(final(self)@ =~= old(self)@.insert(chat_id, thread_id@));
    }

    /// Forgets every chat whose thread is `thread_id`; says whether any was.
    pub fn remove_thread(&mut self, thread_id: &str) -> (removed_any: bool)
        requires
            old(self).wf(),
        ensures
            final(self).wf(),
            final(self)@ == without_thread(old(self)@, thread_id@),
            removed_any == uses_thread(old(self)@, thread_id@),
    {
        let ghost before = self.entries@;
        let mut kept: Vec<(i64, String)> = Vec::new();
        let mut removed_any = false;
        let mut i: usize = 0;
        let ghost mut origin: Seq<int> = Seq::empty();
        while i < self.entries.len()
            invariant
                i <= self.entries.len(),
                self.entries@ == before,
                distinct_chats(before),
                origin.len() == kept.len(),
                forall|t: int|
                    0 <= t < kept.len() ==> 0 <= #[trigger] origin[t] < i && kept@[t].0
                        == before[origin[t]].0 && kept@[t].1@ == before[origin[t]].1@
                        && kept@[t].1@ != thread_id@,
                forall|s: int, t: int| 0 <= s < t < kept.len() ==> origin[s] < origin[t],
                forall|j: int|
                    0 <= j < i && (#[trigger] before[j]).1@ != thread_id@ ==> exists|t: int|
                        0 <= t < kept.len() && origin[t] == j,
                removed_any == exists|j: int| 0 <= j < i && (#[trigger] before[j]).1@ == thread_id@,
            decreases self.entries.len() - i,
        {
            if str_same(self.entries[i].1.as_str(), thread_id) {
                removed_any = true;
            } else {
                let ghost old_origin = origin;
                kept.push((self.entries[i].0, self.entries[i].1.clone()));
                proof {
                    origin = origin.push(i as int);
                    assert forall|j: int|
                        0 <= j < i + 1 && (#[trigger] before[j]).1@ != thread_id@ implies exists|
                        t: int,
                    |
                        0 <= t < kept.len() && origin[t] == j by {
                        if j < i {
                            let t = choose|t: int| 0 <= t < old_origin.len() && old_origin[t] == j;
                            assert(origin[t] == j);
                        } else {
                            assert(origin[kept.len() - 1] == j);
                        }
                    }
                }
            }
            i += 1;
        }
        self.entries = kept;
        let ghost after = self.entries@;
        proof {
            assert forall|a: int, b: int| 0 <= a < b < after.len() implies (#[trigger] after[a]).0
                != (#[trigger] after[b]).0 by {
                assert(origin[a] < origin[b]);
                assert(before[origin[a]].0 != before[origin[b]].0);
            }
            let target = without_thread(thread_map(before), thread_id@);
            assert forall|c: i64| thread_map(after).contains_key(c) == target.contains_key(c) by {
                if thread_map(after).contains_key(c) {
                    let t = entry_for(after, c).unwrap();
                    lemma_thread_map_entry(before, origin[t]);
                }
                if target.contains_key(c) {
                    let j = entry_for(before, c).unwrap();
                    lemma_thread_map_entry(before, j);
                    let t = choose|t: int| 0 <= t < after.len() && origin[t] == j;
                    assert(after[t].0 == c);
                }
            }
            assert forall|c: i64| thread_map(after).contains_key(c) implies thread_map(after)[c]
                == target[c] by {
                let t = entry_for(after, c).unwrap();
                lemma_thread_map_entry(after, t);
                lemma_thread_map_entry(before, origin[t]);
            }
            assert(thread_map(after) =~= target);
            if removed_any {
                let j = choose|j: int| 0 <= j < before.len() && (#[trigger] before[j]).1@
                    == thread_id@;
                lemma_thread_map_entry(before, j);
            }
            if uses_thread(thread_map(before), thread_id@) {
                let c = choose|c: i64| thread_map(before).contains_key(c) && thread_map(before)[c]
                    == thread_id@;
                let j = entry_for(before, c).unwrap();
                lemma_thread_map_entry(before, j);
            }
        }
        removed_any
    }

    /// Forgets every chat.
    pub fn clear(&mut self)
        ensures
            final(self).wf(),
            final(self)@ == Map::<i64, Seq<char>>::empty(),
    {
        self.entries = Vec::new();
        assert(final(self)@ =~= Map::<i64, Seq<char>>::empty());
    }
}

/// Some chat of `map` has the thread `thread_id`.
pub open spec fn uses_thread(map: Map<i64, Seq<char>>, thread_id: Seq<char>) -> bool {
    exists|c: i64| map.contains_key(c) && #[trigger] map[c] == thread_id
}

/// `map` without the chats whose thread is `thread_id`.
pub open spec fn without_thread(map: Map<i64, Seq<char>>, thread_id: Seq<char>) -> Map<
    i64,
    Seq<char>,
> {
    Map::new(|c: i64| map.contains_key(c) && map[c] != thread_id, |c: i64| map[c])
}

} // verus!
