//! The stored form of the thread map: a JSON object whose keys are chat ids
//! in decimal notation and whose values are thread ids.
use crate::chars::{join2, starts_with};
use crate::decimal::{
    decimal, decimal_value, i64_to_decimal, law_decimal_round_trip, parse_decimal_i64,
};
use crate::codex_types::text_result;
use crate::json::{
    json_parse, json_text_pretty, json_written_pretty, parse_json, text_of, Json, JsonValue,
};
use crate::threads::{
    distinct_chats, entry_for, lemma_thread_map_entry, thread_map, ChatThreads,
};
use vstd::prelude::*;

verus! {

/// The members that stand for `entries`, in their order.
pub open spec fn encoded_entries(entries: Seq<(i64, String)>) -> Seq<(Seq<char>, JsonValue)> {
    Seq::new(
        entries.len(),
        |i: int| (decimal(entries[i].0 as int), JsonValue::Str(entries[i].1@)),
    )
}

/// The JSON object that stands for `entries`.
pub open spec fn encode_threads(entries: Seq<(i64, String)>) -> JsonValue {
    JsonValue::Object(encoded_entries(entries))
}

/// The map that the first `n` of `members` stand for: each key is a chat id
/// in decimal notation, each value a text, and a later member replaces an
/// earlier one of the same chat. `None` where a member is anything else.
pub open spec fn decode_entries(members: Seq<(Seq<char>, JsonValue)>, n: int) -> Option<
    Map<i64, Seq<char>>,
>
    decreases n,
{
    if n <= 0 || n > members.len() {
        Some(Map::empty())
    } else {
        match decode_entries(members, n - 1) {
            Some(m) => match (decimal_value(members[n - 1].0), text_of(members[n - 1].1)) {
                (Some(chat), Some(thread)) => Some(m.insert(chat, thread)),
                _ => None,
            },
            None => None,
        }
    }
}

/// The map that a JSON document stands for, if it stands for one.
pub open spec fn decode_threads(j: JsonValue) -> Option<Map<i64, Seq<char>>> {
    match j {
        JsonValue::Object(members) => decode_entries(members, members.len() as int),
        _ => None,
    }
}

/// The map that is loaded from the content of the state file: empty where
/// there is no file, where the content is no JSON, and where the JSON is no
/// thread map.
pub open spec fn loaded_threads(raw: Option<Seq<char>>) -> Map<i64, Seq<char>> {
    match raw {
        Some(text) => match json_parse(text) {
            Some(j) => match decode_threads(j) {
                Some(m) => m,
                None => Map::empty(),
            },
            None => Map::empty(),
        },
        None => Map::empty(),
    }
}

/// The map of a list with one more entry for a chat that it did not hold.
proof fn lemma_thread_map_push(entries: Seq<(i64, String)>, n: int)
    requires
        distinct_chats(entries),
        0 <= n < entries.len(),
    ensures
        thread_map(entries.take(n + 1)) == thread_map(entries.take(n)).insert(
            entries[n].0,
            entries[n].1@,
        ),
{
    let shorter = entries.take(n);
    let longer = entries.take(n + 1);
    let target = thread_map(shorter).insert(entries[n].0, entries[n].1@);
    assert(distinct_chats(longer));
    assert(distinct_chats(shorter));
    assert forall|c: i64| thread_map(longer).contains_key(c) == target.contains_key(c) by {
        if thread_map(longer).contains_key(c) {
            let i = entry_for(longer, c).unwrap();
            if i < n {
                assert(shorter[i].0 == c);
            }
        }
        if thread_map(shorter).contains_key(c) {
            let i = entry_for(shorter, c).unwrap();
            assert(longer[i].0 == c);
        }
        if c == entries[n].0 {
            assert(longer[n].0 == c);
        }
    }
    assert forall|c: i64| thread_map(longer).contains_key(c) implies thread_map(longer)[c]
        == target[c] by {
        let i = entry_for(longer, c).unwrap();
        lemma_thread_map_entry(longer, i);
        if i < n {
            assert(shorter[i].0 == c);
            lemma_thread_map_entry(shorter, i);
            assert(entries[i].0 != entries[n].0);
        }
    }
    assert(thread_map(longer) =~= target);
}

proof fn lemma_decode_encoded(entries: Seq<(i64, String)>, n: int)
    requires
        distinct_chats(entries),
        0 <= n <= entries.len(),
    ensures
        decode_entries(encoded_entries(entries), n) == Some(thread_map(entries.take(n))),
    decreases n,
{
    if n == 0 {
        assert(thread_map(entries.take(0)) =~= Map::<i64, Seq<char>>::empty());
    } else {
        lemma_decode_encoded(entries, n - 1);
        law_decimal_round_trip(entries[n - 1].0);
        lemma_thread_map_push(entries, n - 1);
    }
}

/// Persistence round-trip: the JSON object that a thread map is stored as
/// stands for that map again.
pub proof fn law_thread_map_round_trip(entries: Seq<(i64, String)>)
    requires
        distinct_chats(entries),
    ensures
        decode_threads(encode_threads(entries)) == Some(thread_map(entries)),
{
    lemma_decode_encoded(entries, entries.len() as int);
    assert(entries.take(entries.len() as int) =~= entries);
}

impl ChatThreads {
    /// The JSON object that the map is stored as.
    pub fn to_json(&self) -> (j: Json)
        ensures
            j@ == encode_threads(self.entries@),
    {
        let mut members: Vec<(String, Json)> = Vec::new();
        let mut i: usize = 0;
        while i < self.entries.len()
            invariant
                i <= self.entries.len(),
                members.len() == i,
                forall|k: int|
                    0 <= k < i ==> (#[trigger] members@[k]).0@ == decimal(
                        self.entries@[k].0 as int,
                    ) && members@[k].1@ == JsonValue::Str(self.entries@[k].1@),
            decreases self.entries.len() - i,
        {
            let key = i64_to_decimal(self.entries[i].0);
            let value = Json::text(self.entries[i].1.as_str());
            members.push((key, value));
            i += 1;
        }
        let j = Json::Object(members);
        assert(j@->Object_0 =~= encoded_entries(self.entries@));
        j
    }

    /// The map that the JSON document `j` stands for.
    pub fn from_json(j: &Json) -> (r: Option<ChatThreads>)
        ensures
            match r {
                Some(t) => t.wf() && decode_threads(j@) == Some(t@),
                None => decode_threads(j@).is_none(),
            },
    {
        let members = match j {
            Json::Object(members) => members,
            _ => {
                return None;
            },
        };
        let ghost views = j@->Object_0;
        let mut out = ChatThreads::new();
        let mut i: usize = 0;
        while i < members.len()
            invariant
                i <= members.len(),
                j@ == JsonValue::Object(views),
                views.len() == members.len(),
                forall|k: int|
                    0 <= k < members.len() ==> views[k] == (
                        (#[trigger] members@[k]).0@,
                        members@[k].1@,
                    ),
                out.wf(),
                decode_entries(views, i as int) == Some(out@),
            decreases members.len() - i,
        {
            assert(views[i as int] == (members@[i as int].0@, members@[i as int].1@));
            let chat = parse_decimal_i64(members[i].0.as_str());
            let thread = members[i].1.as_str();
            match (chat, thread) {
                (Some(c), Some(t)) => {
                    out.insert(c, t.to_owned());
                },
                _ => {
                    proof {
                        assert(decimal_value(views[i as int].0).is_none() || text_of(
                            views[i as int].1,
                        ).is_none());
                        assert(decode_entries(views, i + 1).is_none());
                        lemma_decode_fails_on(views, i + 1, views.len() as int);
                    }
                    return None;
                },
            }
            i += 1;
        }
        Some(out)
    }
}

/// Once a member cannot be read, the whole object cannot.
proof fn lemma_decode_fails_on(members: Seq<(Seq<char>, JsonValue)>, k: int, n: int)
    requires
        0 <= k <= n <= members.len(),
        decode_entries(members, k).is_none(),
    ensures
        decode_entries(members, n).is_none(),
    decreases n - k,
{
    if k < n {
        lemma_decode_fails_on(members, k, n - 1);
    }
}

/// The thread map that the parsed content of the state file stands for;
/// empty where there is none or where it is no thread map.
pub fn threads_from(parsed: Option<&Json>) -> (r: ChatThreads)
    ensures
        r.wf(),
        r@ == match parsed {
            Some(j) => match decode_threads(j@) {
                Some(m) => m,
                None => Map::<i64, Seq<char>>::empty(),
            },
            None => Map::<i64, Seq<char>>::empty(),
        },
{
    match parsed {
        Some(j) => match ChatThreads::from_json(j) {
            Some(t) => t,
            None => ChatThreads::new(),
        },
        None => ChatThreads::new(),
    }
}

/// The thread map that is loaded from the content of the state file, where
/// `raw` is `None` if there is no file.
pub fn load_chat_threads(raw: Option<&str>) -> (r: ChatThreads)
    ensures
        r.wf(),
        r@ == loaded_threads(
            match raw {
                Some(text) => Some(text@),
                None => None,
            },
        ),
{
    match raw {
        Some(text) => match parse_json(text) {
            Ok(j) => threads_from(Some(&j)),
            Err(_) => threads_from(None),
        },
        None => threads_from(None),
    }
}

/// The content of the state file for `entries`: the indented text of the
/// object that stands for them; where it cannot be written, the printer's
/// complaint after `serialize codex state failed: `.
pub open spec fn persisted(entries: Seq<(i64, String)>) -> Result<Seq<char>, Seq<char>> {
    match json_written_pretty(encode_threads(entries)) {
        Ok(t) => Ok(t),
        Err(m) => Err("serialize codex state failed: "@ + m),
    }
}

/// The content of the state file for `map`; where it cannot be written, the
/// reason after `serialize codex state failed: `.
pub fn persist_chat_threads(map: &ChatThreads) -> (r: Result<String, String>)
    ensures
        text_result(r) == persisted(map.entries@),
        match r {
            Ok(text) => text@ == json_text_pretty(encode_threads(map.entries@)),
            Err(e) => starts_with(e@, "serialize codex state failed: "@),
        },
{
    match map.to_json().to_pretty_text() {
        Ok(text) => Ok(text),
        Err(fault) => {
            let e = join2("serialize codex state failed: ", fault.message.as_str());
            assert(e@.subrange(0, "serialize codex state failed: "@.len() as int)
                =~= "serialize codex state failed: "@);
            Err(e)
        },
    }
}

} // verus!
