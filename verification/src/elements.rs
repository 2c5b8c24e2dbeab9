//! The elements command: a user writes, overwrites or deletes elements
//! on their canvas.
//!
//! An element may be changed by the user holding its selection, or by
//! any editor while it is unselected; otherwise the server's copy is
//! echoed back so the client reverts. The server owns the selection
//! bookkeeping: a write keeps the stored element's `selected_by`, and a
//! fresh insert starts unselected.

use vstd::prelude::*;
use crate::commands::{AnnounceTo, AnnounceType, AnnounceTypeView, ErrorType};
use crate::element::{Element, ElementView};
use crate::state::{remove_at, App};
use crate::user::AccessLevel;

verus! {

/// The body of an `elements` command: elements to write and element ids
/// to delete.
pub struct Receive {
    pub elements: Vec<Element>,
    pub deleted_elements: Vec<u128>,
}

/// Errors of the elements command.
#[derive(Clone, Copy, Debug, PartialEq, Eq, Structural)]
pub enum Error {
    NoPermission,
    RoomDoesNotExist,
}

/// The first position at or after `i` holding `uuid`.
pub open spec fn find_first(els: Seq<ElementView>, uuid: u128, i: int) -> Option<int>
    decreases els.len() - i,
{
    if i < 0 || i >= els.len() {
        Option::None
    } else if els[i].uuid == uuid {
        Option::Some(i)
    } else {
        find_first(els, uuid, i + 1)
    }
}

/// One write: the canvas afterwards, the element broadcast, the element
/// echoed to the sender, and the id the sender must drop.
pub open spec fn upsert_step(els: Seq<ElementView>, sent: ElementView, u: u128, ce: bool) -> (
    Seq<ElementView>,
    Seq<ElementView>,
    Seq<ElementView>,
    Seq<u128>,
) {
    match find_first(els, sent.uuid, 0) {
        Option::Some(i) => {
            if ce && (els[i].selected_by is None || els[i].selected_by == Option::Some(u)) {
                let stored = ElementView { selected_by: els[i].selected_by, ..sent };
                (els.update(i, stored), seq![stored], seq![stored], Seq::empty())
            } else {
                (els, Seq::empty(), seq![els[i]], Seq::empty())
            }
        },
        Option::None => {
            if ce {
                let stored = ElementView { selected_by: Option::None, ..sent };
                (els.push(stored), seq![stored], seq![stored], Seq::empty())
            } else {
                (els, Seq::empty(), Seq::empty(), seq![sent.uuid])
            }
        },
    }
}

/// All writes from position `i` on, in order.
pub open spec fn apply_upserts(
    els: Seq<ElementView>,
    sent: Seq<ElementView>,
    i: int,
    u: u128,
    ce: bool,
) -> (Seq<ElementView>, Seq<ElementView>, Seq<ElementView>, Seq<u128>)
    decreases sent.len() - i,
{
    if i < 0 || i >= sent.len() {
        (els, Seq::empty(), Seq::empty(), Seq::empty())
    } else {
        let step = upsert_step(els, sent[i], u, ce);
        let rest = apply_upserts(step.0, sent, i + 1, u, ce);
        (rest.0, step.1 + rest.1, step.2 + rest.2, step.3 + rest.3)
    }
}

/// One delete: the canvas afterwards, the id broadcast as deleted, the
/// id confirmed to the sender, and the element echoed for a revert.
pub open spec fn delete_step(els: Seq<ElementView>, uuid: u128, u: u128, ce: bool) -> (
    Seq<ElementView>,
    Seq<u128>,
    Seq<u128>,
    Seq<ElementView>,
) {
    match find_first(els, uuid, 0) {
        Option::Some(i) => {
            if ce && (els[i].selected_by is None || els[i].selected_by == Option::Some(u)) {
                (remove_at(els, i), seq![uuid], seq![uuid], Seq::empty())
            } else {
                (els, Seq::empty(), Seq::empty(), seq![els[i]])
            }
        },
        Option::None => (els, Seq::empty(), Seq::empty(), Seq::empty()),
    }
}

/// All deletes from position `i` on, in order.
pub open spec fn apply_deletes(
    els: Seq<ElementView>,
    dels: Seq<u128>,
    i: int,
    u: u128,
    ce: bool,
) -> (Seq<ElementView>, Seq<u128>, Seq<u128>, Seq<ElementView>)
    decreases dels.len() - i,
{
    if i < 0 || i >= dels.len() {
        (els, Seq::empty(), Seq::empty(), Seq::empty())
    } else {
        let step = delete_step(els, dels[i], u, ce);
        let rest = apply_deletes(step.0, dels, i + 1, u, ce);
        (rest.0, step.1 + rest.1, step.2 + rest.2, step.3 + rest.3)
    }
}

/// A selection value the canvas may hold after the command: empty, the
/// sender's, or one it already held.
pub open spec fn sel_from(v: Option<u128>, els0: Seq<ElementView>, u: u128) -> bool {
    ||| v is None
    ||| v == Option::Some(u)
    ||| exists|j: int| 0 <= j < els0.len() && (#[trigger] els0[j]).selected_by == v
}

proof fn lemma_find_first_bounds(els: Seq<ElementView>, uuid: u128, i: int)
    requires
        find_first(els, uuid, i) is Some,
    ensures
        find_first(els, uuid, i) matches Some(w) && i <= w < els.len() && els[w].uuid == uuid,
    decreases els.len() - i,
{
    if 0 <= i < els.len() && els[i].uuid != uuid {
        lemma_find_first_bounds(els, uuid, i + 1);
    }
}

proof fn lemma_upserts_selections(
    els: Seq<ElementView>,
    sent: Seq<ElementView>,
    i: int,
    u: u128,
    ce: bool,
    els0: Seq<ElementView>,
)
    requires
        forall|e: int| 0 <= e < els.len() ==> sel_from(
            (#[trigger] els[e]).selected_by,
            els0,
            u,
        ),
    ensures
        forall|e: int| 0 <= e < apply_upserts(els, sent, i, u, ce).0.len() ==> sel_from(
            (#[trigger] apply_upserts(els, sent, i, u, ce).0[e]).selected_by,
            els0,
            u,
        ),
    decreases sent.len() - i,
{
    if 0 <= i < sent.len() {
        let step = upsert_step(els, sent[i], u, ce);
        assert forall|e: int| 0 <= e < step.0.len() implies sel_from(
            (#[trigger] step.0[e]).selected_by,
            els0,
            u,
        ) by {
            match find_first(els, sent[i].uuid, 0) {
                Option::Some(w) => {
                    lemma_find_first_bounds(els, sent[i].uuid, 0);
                    if ce && (els[w].selected_by is None || els[w].selected_by == Option::Some(
                        u,
                    )) {
                        if e == w {
                            assert(sel_from(els[w].selected_by, els0, u));
                        } else {
                            assert(step.0[e] == els[e]);
                        }
                    } else {
                        assert(step.0[e] == els[e]);
                    }
                },
                Option::None => {
                    if ce {
                        if e == els.len() as int {
                            assert(step.0[e].selected_by is None);
                        } else {
                            assert(step.0[e] == els[e]);
                        }
                    } else {
                        assert(step.0[e] == els[e]);
                    }
                },
            }
        }
        lemma_upserts_selections(step.0, sent, i + 1, u, ce, els0);
    }
}

proof fn lemma_deletes_selections(
    els: Seq<ElementView>,
    dels: Seq<u128>,
    i: int,
    u: u128,
    ce: bool,
    els0: Seq<ElementView>,
)
    requires
        forall|e: int| 0 <= e < els.len() ==> sel_from(
            (#[trigger] els[e]).selected_by,
            els0,
            u,
        ),
    ensures
        forall|e: int| 0 <= e < apply_deletes(els, dels, i, u, ce).0.len() ==> sel_from(
            (#[trigger] apply_deletes(els, dels, i, u, ce).0[e]).selected_by,
            els0,
            u,
        ),
    decreases dels.len() - i,
{
    if 0 <= i < dels.len() {
        let step = delete_step(els, dels[i], u, ce);
        assert forall|e: int| 0 <= e < step.0.len() implies sel_from(
            (#[trigger] step.0[e]).selected_by,
            els0,
            u,
        ) by {
            match find_first(els, dels[i], 0) {
                Option::Some(w) => {
                    lemma_find_first_bounds(els, dels[i], 0);
                    if ce && (els[w].selected_by is None || els[w].selected_by == Option::Some(
                        u,
                    )) {
                        if e < w {
                            assert(step.0[e] == els[e]);
                        } else {
                            assert(step.0[e] == els[e + 1]);
                        }
                    } else {
                        assert(step.0[e] == els[e]);
                    }
                },
                Option::None => {
                    assert(step.0[e] == els[e]);
                },
            }
        }
        lemma_deletes_selections(step.0, dels, i + 1, u, ce, els0);
    }
}

/// The first position of `uuid` among the elements, if any.
fn find_pos(els: &Vec<Element>, uuid: u128) -> (r: Option<usize>)
    ensures
        match r {
            Some(i) => i < els@.len() && find_first(
                els@.map_values(|e: Element| e@),
                uuid,
                0,
            ) == Option::Some(i as int),
            None => find_first(els@.map_values(|e: Element| e@), uuid, 0)
                == Option::<int>::None,
        },
{
    let ghost v = els@.map_values(|e: Element| e@);
    let mut i: usize = 0;
    while i < els.len()
        invariant
            i <= els@.len(),
            v == els@.map_values(|e: Element| e@),
            find_first(v, uuid, 0) == find_first(v, uuid, i as int),
        decreases els@.len() - i,
    {
        if els[i].uuid == uuid {
            return Some(i);
        }
        i = i + 1;
    }
    None
}

/// Everything the elements handler does, as a relation between the
/// registry before and after, the command, and the handler's result.
pub open spec fn elems_post(
    pre: App,
    room: Seq<char>,
    addr: u64,
    cmd: Receive,
    post: App,
    r: Result<AnnounceTo, ErrorType>,
) -> bool {
    &&& (r is Err ==> post.rooms@ == pre.rooms@ && r == Err::<
                AnnounceTo,
                ErrorType,
            >(ErrorType::Elements(Error::RoomDoesNotExist)))
    &&& ((r is Err) == (!pre.has_room(room) || !pre.rooms@[pre.room_index(room)].room.has_addr(addr)))
    &&& (r is Ok ==> ({
                let k = pre.room_index(room);
                let room = pre.rooms@[k].room;
                let sender = room.users@[room.addr_index(addr)];
                let ce = sender.access_level != AccessLevel::View;
                let cid = sender.canvas;
                let sentv = cmd.elements@.map_values(|e: Element| e@);
                let room2 = post.rooms@[k].room;
                &&& post.rooms@.len() == pre.rooms@.len()
                &&& (forall|j: int| 0 <= j < pre.rooms@.len() && j != k
                    ==> #[trigger] post.rooms@[j] == pre.rooms@[j])
                &&& post.rooms@[k].name == pre.rooms@[k].name
                &&& room2.users == room.users
                &&& room2.has_canvas(cid)
                &&& exists|els0: Seq<ElementView>|
                    {
                        let up = apply_upserts(els0, sentv, 0, sender.uuid, ce);
                        let tr = #[trigger] els0.len();
                        let dn = apply_deletes(up.0, cmd.deleted_elements@, 0, sender.uuid, ce);
                        &&& (if room.has_canvas(cid) {
                            els0 == room.canvases@[room.canvas_index(
                                cid,
                            )].canvas.elements@.map_values(|e: Element| e@)
                        } else {
                            els0.len() == 1 && els0[0].selected_by is None
                        })
                        &&& room2.canvases@[room2.canvas_index(
                            cid,
                        )].canvas.elements@.map_values(|e: Element| e@) == dn.0
                        &&& (if up.1.len() == 0 && dn.1.len() == 0 {
                            r matches Ok(AnnounceTo::Respond(d)) && d@
                                == AnnounceTypeView::ElementsChanged {
                                elements: up.2 + dn.3,
                                deleted_elements: up.3 + dn.2,
                            }
                        } else {
                            r matches Ok(AnnounceTo::ResponseAndAnnounceToCanvas {
                                respond,
                                announce,
                                canvas,
                            }) && canvas == cid && respond@ == AnnounceTypeView::ElementsChanged {
                                elements: up.2 + dn.3,
                                deleted_elements: up.3 + dn.2,
                            } && announce@ == AnnounceTypeView::ElementsChanged {
                                elements: up.1,
                                deleted_elements: dn.1,
                            }
                        })
                    }
            }))
}

impl Receive {
    /// Applies an `elements` command from the member at connection id
    /// `addr`: writes and deletes go through element by element, gated
    /// by edit permission and by selection ownership; refused changes
    /// are answered with the server's copy so the client reverts.
    pub fn process(self, app: &mut App, room_name: &str, addr: u64) -> (r: Result<
        AnnounceTo,
        ErrorType,
    >)
        requires
            old(app).wf(),
        ensures
            final(app).wf(),
            old(app).admined_all() ==> final(app).admined_all(),
            elems_post(*old(app), room_name@, addr, self, *final(app), r),
    {
        let kpos = app.room_pos(room_name);
        let k = match kpos {
            None => {
                return Err(ErrorType::Elements(Error::RoomDoesNotExist));
            },
            Some(k) => k,
        };
        proof {
            app.lemma_room_index_unique(room_name@, k as int);
        }
        let ipos = app.rooms[k].room.user_pos_from_addr(addr);
        let i = match ipos {
            None => {
                return Err(ErrorType::Elements(Error::RoomDoesNotExist));
            },
            Some(i) => i,
        };
        proof {
            app.rooms@[k as int].room.lemma_addr_index_unique(addr, i as int);
        }
        let uuid = app.rooms[k].room.users[i].uuid;
        let ce = !(app.rooms[k].room.users[i].access_level == AccessLevel::View);
        let cid = app.rooms[k].room.users[i].canvas;
        let ghost room0 = app.rooms@[k as int].room;
        let kc = app.rooms[k].room.get_or_create_canvas(cid);
        proof {
            if room0.has_canvas(cid) {
                let k0 = choose|k0: int|
                    0 <= k0 < room0.canvases@.len() && (#[trigger] room0.canvases@[k0]).id == cid;
                room0.lemma_canvas_index_unique(cid, k0);
                app.rooms@[k as int].room.lemma_canvas_index_unique(cid, k0);
                assert(kc as int == k0);
            }
        }
        // work on a copy of the canvas, then write it back
        let mut els: Vec<Element> = crate::element::clone_elements(
            &app.rooms[k].room.canvases[kc].canvas.elements,
        );
        let ghost els0 = els@.map_values(|e: Element| e@);
        let ghost sentv = self.elements@.map_values(|e: Element| e@);
        let mut broadcast_els: Vec<Element> = Vec::new();
        let mut sender_els: Vec<Element> = Vec::new();
        let mut sender_dropped: Vec<u128> = Vec::new();
        let mut si: usize = 0;
        while si < self.elements.len()
            invariant
                si <= self.elements@.len(),
                sentv == self.elements@.map_values(|e: Element| e@),
                apply_upserts(els0, sentv, 0, uuid, ce).0 == apply_upserts(
                    els@.map_values(|e: Element| e@),
                    sentv,
                    si as int,
                    uuid,
                    ce,
                ).0,
                apply_upserts(els0, sentv, 0, uuid, ce).1 == broadcast_els@.map_values(
                    |e: Element| e@,
                ) + apply_upserts(els@.map_values(|e: Element| e@), sentv, si as int, uuid, ce).1,
                apply_upserts(els0, sentv, 0, uuid, ce).2 == sender_els@.map_values(
                    |e: Element| e@,
                ) + apply_upserts(els@.map_values(|e: Element| e@), sentv, si as int, uuid, ce).2,
                apply_upserts(els0, sentv, 0, uuid, ce).3 == sender_dropped@ + apply_upserts(
                    els@.map_values(|e: Element| e@),
                    sentv,
                    si as int,
                    uuid,
                    ce,
                ).3,
            decreases self.elements@.len() - si,
        {
            let ghost curv = els@.map_values(|e: Element| e@);
            let sent_el = self.elements[si].clone();
            proof {
                assert(sent_el@ == sentv[si as int]);
            }
            match find_pos(&els, sent_el.uuid) {
                Some(w) => {
                    let owned = match els[w].selected_by {
                        Option::Some(s) => s == uuid,
                        Option::None => true,
                    };
                    if ce && owned {
                        let mut stored = sent_el;
                        stored.selected_by = els[w].selected_by;
                        let stored2 = stored.clone();
                        let stored3 = stored.clone();
                        proof {
                            assert(stored@ == ElementView {
                                selected_by: curv[w as int].selected_by,
                                ..sentv[si as int]
                            });
                        }
                        els[w] = stored;
                        broadcast_els.push(stored2);
                        sender_els.push(stored3);
                        proof {
                            assert(els@.map_values(|e: Element| e@) =~= curv.update(
                                w as int,
                                ElementView {
                                    selected_by: curv[w as int].selected_by,
                                    ..sentv[si as int]
                                },
                            ));
                            assert(broadcast_els@.map_values(|e: Element| e@)
                                =~= broadcast_els@.map_values(|e: Element| e@));
                        }
                    } else {
                        let server_copy = els[w].clone();
                        sender_els.push(server_copy);
                    }
                },
                None => {
                    if ce {
                        let mut stored = sent_el;
                        stored.selected_by = Option::None;
                        let stored2 = stored.clone();
                        let stored3 = stored.clone();
                        proof {
                            assert(stored@ == ElementView {
                                selected_by: Option::None,
                                ..sentv[si as int]
                            });
                        }
                        els.push(stored);
                        broadcast_els.push(stored2);
                        sender_els.push(stored3);
                        proof {
                            assert(els@.map_values(|e: Element| e@) =~= curv.push(
                                ElementView { selected_by: Option::None, ..sentv[si as int] },
                            ));
                        }
                    } else {
                        sender_dropped.push(sent_el.uuid);
                    }
                },
            }
            proof {
                assert(apply_upserts(curv, sentv, si as int, uuid, ce).0 == apply_upserts(
                    upsert_step(curv, sentv[si as int], uuid, ce).0,
                    sentv,
                    si + 1,
                    uuid,
                    ce,
                ).0);
            }
            si = si + 1;
        }
        let ghost up = apply_upserts(els0, sentv, 0, uuid, ce);
        proof {
            assert(up.1 =~= broadcast_els@.map_values(|e: Element| e@));
            assert(up.2 =~= sender_els@.map_values(|e: Element| e@));
            assert(up.3 =~= sender_dropped@);
            assert(up.0 == els@.map_values(|e: Element| e@));
        }
        let ghost els1 = els@.map_values(|e: Element| e@);
        let mut deleted: Vec<u128> = Vec::new();
        let mut sender_deleted: Vec<u128> = Vec::new();
        let mut di: usize = 0;
        while di < self.deleted_elements.len()
            invariant
                di <= self.deleted_elements@.len(),
                apply_deletes(els1, self.deleted_elements@, 0, uuid, ce).0 == apply_deletes(
                    els@.map_values(|e: Element| e@),
                    self.deleted_elements@,
                    di as int,
                    uuid,
                    ce,
                ).0,
                apply_deletes(els1, self.deleted_elements@, 0, uuid, ce).1 == deleted@
                    + apply_deletes(
                    els@.map_values(|e: Element| e@),
                    self.deleted_elements@,
                    di as int,
                    uuid,
                    ce,
                ).1,
                apply_deletes(els1, self.deleted_elements@, 0, uuid, ce).2 == sender_deleted@
                    + apply_deletes(
                    els@.map_values(|e: Element| e@),
                    self.deleted_elements@,
                    di as int,
                    uuid,
                    ce,
                ).2,
                apply_deletes(els1, self.deleted_elements@, 0, uuid, ce).3
                    == sender_els@.map_values(|e: Element| e@).skip(up.2.len() as int)
                    + apply_deletes(
                    els@.map_values(|e: Element| e@),
                    self.deleted_elements@,
                    di as int,
                    uuid,
                    ce,
                ).3,
                up.2 == sender_els@.map_values(|e: Element| e@).take(up.2.len() as int),
                up.2.len() <= sender_els@.len(),
            decreases self.deleted_elements@.len() - di,
        {
            let ghost curv = els@.map_values(|e: Element| e@);
            let del_uuid = self.deleted_elements[di];
            match find_pos(&els, del_uuid) {
                Some(w) => {
                    let owned = match els[w].selected_by {
                        Option::Some(s) => s == uuid,
                        Option::None => true,
                    };
                    if ce && owned {
                        els.remove(w);
                        deleted.push(del_uuid);
                        sender_deleted.push(del_uuid);
                        proof {
                            assert(els@.map_values(|e: Element| e@) =~= remove_at(
                                curv,
                                w as int,
                            ));
                        }
                    } else {
                        let server_copy = els[w].clone();
                        sender_els.push(server_copy);
                    }
                },
                None => {},
            }
            di = di + 1;
        }
        let ghost dn = apply_deletes(els1, self.deleted_elements@, 0, uuid, ce);
        proof {
            assert(dn.0 == els@.map_values(|e: Element| e@));
            assert(dn.1 =~= deleted@);
            assert(dn.2 =~= sender_deleted@);
            assert(sender_els@.map_values(|e: Element| e@) =~= up.2 + dn.3);
        }
        // write the canvas back
        let had_changes = broadcast_els.len() > 0 || deleted.len() > 0;
        app.rooms[k].room.canvases[kc].canvas.elements = els;
        let mut all_sender_deleted = sender_dropped;
        all_sender_deleted.append(&mut sender_deleted);
        proof {
            assert(all_sender_deleted@ =~= up.3 + dn.2);
            // the room stays well formed
            assert forall|e: int| 0 <= e < els0.len() implies sel_from(
                (#[trigger] els0[e]).selected_by,
                els0,
                uuid,
            ) by {}
            lemma_upserts_selections(els0, sentv, 0, uuid, ce, els0);
            lemma_deletes_selections(up.0, self.deleted_elements@, 0, uuid, ce, els0);
        }
        let r = if !had_changes {
            Ok(
                AnnounceTo::Respond(
                    AnnounceType::ElementsChanged {
                        elements: sender_els,
                        deleted_elements: all_sender_deleted,
                    },
                ),
            )
        } else {
            Ok(
                AnnounceTo::ResponseAndAnnounceToCanvas {
                    respond: AnnounceType::ElementsChanged {
                        elements: sender_els,
                        deleted_elements: all_sender_deleted,
                    },
                    announce: AnnounceType::ElementsChanged {
                        elements: broadcast_els,
                        deleted_elements: deleted,
                    },
                    canvas: cid,
                },
            )
        };
        proof {
            let room2 = app.rooms@[k as int].room;
            app.rooms@[k as int].room.lemma_canvas_index_unique(cid, kc as int);
            assert forall|k2: int, e2: int|
                0 <= k2 < room2.canvases@.len() && 0 <= e2
                    < room2.canvases@[k2].canvas.elements@.len() implies (match (
            #[trigger] room2.canvases@[k2].canvas.elements@[e2]).selected_by {
                Option::Some(u) => room2.has_uuid(u),
                Option::None => true,
            }) by {
                if k2 != kc as int {
                    if !room0.has_canvas(cid) {
                        assert(room2.canvases@.subrange(0, room0.canvases@.len() as int)
                            == room0.canvases@);
                        assert(room2.canvases@.subrange(0, room0.canvases@.len() as int)[k2]
                            == room2.canvases@[k2]);
                    }
                    assert(room2.canvases@[k2] == room0.canvases@[k2]);
                    match room2.canvases@[k2].canvas.elements@[e2].selected_by {
                        Option::Some(u) => {
                            assert(room0.has_uuid(u));
                            let w = choose|w: int|
                                0 <= w < room0.users@.len() && (#[trigger] room0.users@[w]).uuid
                                    == u;
                            assert(room2.users@[w].uuid == u);
                        },
                        Option::None => {},
                    }
                } else {
                    let nowv = room2.canvases@[k2].canvas.elements@.map_values(
                        |e: Element| e@,
                    );
                    assert(nowv[e2].selected_by
                        == room2.canvases@[k2].canvas.elements@[e2].selected_by);
                    assert(sel_from(nowv[e2].selected_by, els0, uuid));
                    match room2.canvases@[k2].canvas.elements@[e2].selected_by {
                        Option::Some(u) => {
                            if u == uuid {
                                assert(room2.users@[i as int].uuid == uuid);
                            } else {
                                let j = choose|j: int|
                                    0 <= j < els0.len() && (#[trigger] els0[j]).selected_by
                                        == Option::Some(u);
                                if room0.has_canvas(cid) {
                                    assert(room0.canvases@[kc as int].canvas.elements@[j].selected_by
                                        == Option::Some(u));
                                    assert(room0.has_uuid(u));
                                    let w = choose|w: int|
                                        0 <= w < room0.users@.len() && (
                                        #[trigger] room0.users@[w]).uuid == u;
                                    assert(room2.users@[w].uuid == u);
                                } else {
                                    assert(els0[j].selected_by is None);
                                }
                            }
                        },
                        Option::None => {},
                    }
                }
            }
            assert forall|j: int| 0 <= j < app.rooms@.len() implies (
            #[trigger] app.rooms@[j]).room.wf() && (old(app).admined_all()
                ==> app.rooms@[j].room.admined()) by {
                if j != k {
                    assert(app.rooms@[j] == old(app).rooms@[j]);
                }
            }
            assert forall|a: int, b: int| 0 <= a < b < app.rooms@.len() implies (
            #[trigger] app.rooms@[a]).name@ != (#[trigger] app.rooms@[b]).name@ by {
                assert(app.rooms@[a].name@ == old(app).rooms@[a].name@);
                assert(app.rooms@[b].name@ == old(app).rooms@[b].name@);
            }
            if room0.has_canvas(cid) {
                assert(els0 == room0.canvases@[room0.canvas_index(cid)].canvas.elements@.map_values(
                    |e: Element| e@,
                ));
            } else {
                assert(els0.len() == 1 && els0[0].selected_by is None);
            }
        }
        r
    }
}

} // verus!
