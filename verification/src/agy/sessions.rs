//! The sessions that an adapter holds, and the answers that it gives.

use crate::table::Table;
use crate::value::Json;
use crate::value::JsonView;
use crate::value::get_of;
use crate::value::integer_view;
use crate::value::law_added_member_is_found;
use crate::value::text_in;
use vstd::prelude::*;
use vstd::string::*;

verus! {

/// How many sessions an adapter holds at most.
pub const MAX_SESSIONS: usize = 64;

/// Sessions by their ids, the oldest first.
pub struct Sessions<S> {
    table: Table<String, S>,
}

/// The ids that are left when room is made for one more: the newest.
pub open spec fn room(order: Seq<Seq<char>>) -> Seq<Seq<char>> {
    if order.len() < MAX_SESSIONS {
        order
    } else {
        order.skip(order.len() - MAX_SESSIONS + 1)
    }
}

impl<S: View> Sessions<S> {
    pub closed spec fn wf(&self) -> bool {
        self.table.wf()
    }

    /// The ids, the oldest first.
    pub closed spec fn order(&self) -> Seq<Seq<char>> {
        self.table.keys()
    }

    /// What each session says.
    pub closed spec fn view(&self) -> Map<Seq<char>, S::V> {
        self.table@.map_values(|s: S| s@)
    }

    /// No session.
    pub fn new() -> (r: Self)
        ensures
            r.wf(),
            r.order() == Seq::<Seq<char>>::empty(),
            r@ == Map::<Seq<char>, S::V>::empty(),
    {
        let r = Sessions { table: Table::new() };
        assert(r@ =~= Map::<Seq<char>, S::V>::empty());
        r
    }

    /// Whether there is a session of this id.
    pub fn contains(&self, id: &str) -> (r: bool)
        requires
            self.wf(),
        ensures
            r == self@.contains_key(id@),
    {
        let key = id.to_owned();
        self.table.contains(&key)
    }

    /// The session of an id.
    pub fn get(&self, id: &str) -> (r: Option<&S>)
        requires
            self.wf(),
        ensures
            r is Some <==> self@.contains_key(id@),
            r matches Some(s) ==> s@ == self@[id@],
    {
        let key = id.to_owned();
        self.table.get(&key)
    }

    /// How many sessions there are.
    pub fn len(&self) -> (r: usize)
        requires
            self.wf(),
        ensures
            r == self.order().len(),
    {
        self.table.len()
    }

    /// The id and the session at a place in the order.
    pub fn at(&self, i: usize) -> (r: (&str, &S))
        requires
            self.wf(),
            i < self.order().len(),
        ensures
            r.0@ == self.order()[i as int],
            self@.contains_key(r.0@),
            r.1@ == self@[r.0@],
    {
        proof {
            self.table.lemma_at(i as int);
        }
        let e = self.table.at(i);
        (e.0.as_str(), e.1)
    }

    /// Sets the session of an id.
    pub fn put(&mut self, id: &str, s: S)
        requires
            old(self).wf(),
        ensures
            final(self).wf(),
            final(self)@ == old(self)@.insert(id@, s@),
            final(self).order() == (if old(self)@.contains_key(id@) {
                old(self).order()
            } else {
                old(self).order().push(id@)
            }),
    {
        let ghost before = self@;
        let key = id.to_owned();
        let _ = self.table.insert(key, s);
        assert(self@ =~= before.insert(id@, s@));
    }

    /// Makes room for one more session: the oldest go.
    pub fn evict_if_needed(&mut self)
        requires
            old(self).wf(),
        ensures
            final(self).wf(),
            final(self).order() == room(old(self).order()),
            final(self)@ == old(self)@.restrict(room(old(self).order()).to_set()),
    {
        let ghost all = self.order();
        let ghost before = self@;
        let ghost mut gone: int = 0;
        proof {
            assert(all.skip(0) =~= all);
            assert(before.restrict(all.to_set()) =~= before) by {
                assert forall|k: Seq<char>| before.contains_key(k) implies all.to_set().contains(
                    k,
                ) by {
                    assert(self.table@.contains_key(k));
                }
            }
        }
        while self.table.len() >= MAX_SESSIONS
            invariant
                self.wf(),
                0 <= gone <= all.len(),
                all.no_duplicates(),
                self.order() == all.skip(gone),
                all.len() < MAX_SESSIONS ==> gone == 0,
                all.len() >= MAX_SESSIONS ==> gone <= all.len() - MAX_SESSIONS + 1,
                self@ == before.restrict(all.skip(gone).to_set()),
            decreases self.order().len(),
        {
            let ghost sofar = self@;
            let ghost oldest = self.order()[0];
            let _ = self.table.remove_at(0);
            proof {
                assert(self.order() =~= all.skip(gone + 1));
                assert(self@ =~= sofar.remove(oldest));
                assert(self@ =~= before.restrict(all.skip(gone + 1).to_set())) by {
                    assert forall|k: Seq<char>| all.skip(gone + 1).contains(k) <==> (all.skip(
                        gone,
                    ).contains(k) && k != oldest) by {
                        if all.skip(gone + 1).contains(k) {
                            let i = all.skip(gone + 1).index_of(k);
                            assert(all.skip(gone)[i + 1] == k);
                            assert(all[gone] == oldest);
                            assert(all[gone + 1 + i] == k);
                        }
                        if all.skip(gone).contains(k) && k != oldest {
                            let i = all.skip(gone).index_of(k);
                            assert(i > 0);
                            assert(all.skip(gone + 1)[i - 1] == k);
                        }
                    }
                }
                gone = gone + 1;
            }
        }
    }
}

/// Making room always leaves room, takes away no more than it must, and keeps
/// the newest.
pub proof fn law_room_is_made(order: Seq<Seq<char>>)
    ensures
        room(order).len() < MAX_SESSIONS,
        order.len() >= MAX_SESSIONS ==> room(order).len() == MAX_SESSIONS - 1,
        order.len() < MAX_SESSIONS ==> room(order) == order,
        forall|i: int|
            0 <= i < room(order).len() ==> #[trigger] room(order)[i] == order[order.len() - room(
                order,
            ).len() + i],
{
}

/// An answer with a result.
pub open spec fn result_json(id: JsonView, result: JsonView) -> JsonView {
    JsonView::empty_object().with("jsonrpc"@, JsonView::Text("2.0"@)).with("id"@, id).with(
        "result"@,
        result,
    )
}

/// An answer with an error.
pub open spec fn error_json(id: JsonView, code: int, message: Seq<char>) -> JsonView {
    JsonView::empty_object().with("jsonrpc"@, JsonView::Text("2.0"@)).with("id"@, id).with(
        "error"@,
        JsonView::empty_object().with("code"@, JsonView::Number(integer_view(code as i64))).with(
            "message"@,
            JsonView::Text(message),
        ),
    )
}

/// An answer with a result.
pub fn result_response(id: Json, result: Json) -> (r: Json)
    ensures
        r@ == result_json(id@, result@),
{
    Json::object().with("jsonrpc", Json::text("2.0")).with("id", id).with("result", result)
}

/// An answer with an error.
pub fn error_response(id: Json, code: i64, message: &str) -> (r: Json)
    ensures
        r@ == error_json(id@, code as int, message@),
{
    Json::object().with("jsonrpc", Json::text("2.0")).with("id", id).with(
        "error",
        Json::object().with("code", Json::integer(code)).with("message", Json::text(message)),
    )
}

/// An answer is given under the id of its request. One with a result carries
/// that and no error, and one with an error carries its code and its message and
/// no result.
pub proof fn law_answer_is_to_its_request(id: JsonView, result: JsonView, code: int, message: Seq<char>)
    ensures
        result_json(id, result).text_of("jsonrpc"@) == Some("2.0"@),
        result_json(id, result).get("id"@) == Some(id),
        result_json(id, result).get("result"@) == Some(result),
        result_json(id, result).get("error"@) is None,
        error_json(id, code, message).text_of("jsonrpc"@) == Some("2.0"@),
        error_json(id, code, message).get("id"@) == Some(id),
        error_json(id, code, message).get("result"@) is None,
        text_in(error_json(id, code, message).get("error"@), "message"@) == Some(message),
        get_of(error_json(id, code, message).get("error"@), "code"@) == Some(
            JsonView::Number(integer_view(code as i64)),
        ),
{
    broadcast use law_added_member_is_found;

    reveal_strlit("jsonrpc");
    reveal_strlit("id");
    reveal_strlit("result");
    reveal_strlit("error");
    reveal_strlit("code");
    reveal_strlit("message");
    assert("jsonrpc"@.len() == 7 && "id"@.len() == 2 && "result"@.len() == 6);
    assert("error"@.len() == 5 && "code"@.len() == 4 && "message"@[0] == 'm');
    assert("jsonrpc"@[0] == 'j' && "code"@[0] == 'c');
}

} // verus!
