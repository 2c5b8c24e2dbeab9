//! The selection command: a user asks to hold exactly the given set of
//! elements on their canvas.

use vstd::prelude::*;
use crate::commands::{AnnounceTo, AnnounceType, AnnounceTypeView, ErrorType};
use crate::element::Element;
use crate::state::App;
use crate::user::AccessLevel;

verus! {

/// The body of a `selection` command: the element ids the sender wants
/// selected, replacing their previous selection on their canvas.
pub struct Receive {
    pub elements: Vec<u128>,
}

/// Errors of the selection command.
#[derive(Clone, Copy, Debug, PartialEq, Eq, Structural)]
pub enum Error {
    NoPermission,
    RoomDoesNotExist,
}

/// What a selection request does to one element: requested and free, it
/// becomes the sender's; not requested but held by the sender, it is
/// released; anything else is untouched.
pub open spec fn sel_update(e: Element, req: Seq<u128>, u: u128) -> Element {
    if !req.contains(e.uuid) && e.selected_by == Option::Some(u) {
        Element { selected_by: Option::None, ..e }
    } else if req.contains(e.uuid) && e.selected_by is None {
        Element { selected_by: Option::Some(u), ..e }
    } else {
        e
    }
}

/// The ids the sender releases: held by the sender, not in the request.
pub open spec fn newly_deselected(els: Seq<Element>, req: Seq<u128>, u: u128) -> Seq<u128>
    decreases els.len(),
{
    if els.len() == 0 {
        Seq::empty()
    } else {
        let rest = newly_deselected(els.drop_last(), req, u);
        let e = els.last();
        if !req.contains(e.uuid) && e.selected_by == Option::Some(u) {
            rest.push(e.uuid)
        } else {
            rest
        }
    }
}

/// The ids the sender gains: requested and unselected on the server.
pub open spec fn newly_selected(els: Seq<Element>, req: Seq<u128>, u: u128) -> Seq<u128>
    decreases els.len(),
{
    if els.len() == 0 {
        Seq::empty()
    } else {
        let rest = newly_selected(els.drop_last(), req, u);
        let e = els.last();
        if req.contains(e.uuid) && e.selected_by is None {
            rest.push(e.uuid)
        } else {
            rest
        }
    }
}

/// The ids the sender cannot take: requested but held by someone else.
pub open spec fn failed_to_select(els: Seq<Element>, req: Seq<u128>, u: u128) -> Seq<u128>
    decreases els.len(),
{
    if els.len() == 0 {
        Seq::empty()
    } else {
        let rest = failed_to_select(els.drop_last(), req, u);
        let e = els.last();
        if req.contains(e.uuid) && (match e.selected_by {
            Option::Some(w) => w != u,
            Option::None => false,
        }) {
            rest.push(e.uuid)
        } else {
            rest
        }
    }
}

/// Whether a list of ids holds `x`.
pub(crate) fn contains_id(v: &Vec<u128>, x: u128) -> (r: bool)
    ensures
        r == v@.contains(x),
{
    let mut i: usize = 0;
    while i < v.len()
        invariant
            i <= v@.len(),
            forall|j: int| 0 <= j < i ==> v@[j] != x,
        decreases v@.len() - i,
    {
        if v[i] == x {
            return true;
        }
        i = i + 1;
    }
    proof {
        assert(!v@.contains(x));
    }
    false
}

fn clone_ids(v: &Vec<u128>) -> (r: Vec<u128>)
    ensures
        r@ == v@,
{
    let mut r: Vec<u128> = Vec::new();
    let mut i: usize = 0;
    while i < v.len()
        invariant
            i <= v@.len(),
            r@.len() == i,
            forall|j: int| 0 <= j < i ==> r@[j] == v@[j],
        decreases v@.len() - i,
    {
        r.push(v[i]);
        i = i + 1;
    }
    proof {
        assert(r@ =~= v@);
    }
    r
}

/// Everything the selection handler does, as a relation between the
/// registry before and after, the command, and the handler's result.
pub open spec fn sel_post(
    pre: App,
    room: Seq<char>,
    addr: u64,
    cmd: Receive,
    post: App,
    r: Result<AnnounceTo, ErrorType>,
) -> bool {
    &&& (r is Err ==> post.rooms@ == pre.rooms@)
    &&& (!pre.has_room(room) ==> r == Err::<AnnounceTo, ErrorType>(
                ErrorType::Selection(Error::RoomDoesNotExist),
            ))
    &&& (pre.has_room(room) ==> ({
                let k = pre.room_index(room);
                let room = pre.rooms@[k].room;
                &&& (!room.has_addr(addr) ==> r == Err::<AnnounceTo, ErrorType>(
                    ErrorType::Selection(Error::RoomDoesNotExist),
                ))
                &&& (room.has_addr(addr) ==> ({
                    let sender = room.users@[room.addr_index(addr)];
                    &&& (sender.access_level == AccessLevel::View ==> r == Err::<
                        AnnounceTo,
                        ErrorType,
                    >(ErrorType::Selection(Error::NoPermission)))
                    &&& (sender.access_level != AccessLevel::View ==> ({
                        let cid = sender.canvas;
                        let room2 = post.rooms@[k].room;
                        &&& post.rooms@.len() == pre.rooms@.len()
                        &&& (forall|j: int| 0 <= j < pre.rooms@.len() && j != k
                            ==> #[trigger] post.rooms@[j] == pre.rooms@[j])
                        &&& post.rooms@[k].name == pre.rooms@[k].name
                        &&& room2.users == room.users
                        &&& room2.has_canvas(cid)
                        &&& exists|els0: Seq<Element>|
                            {
                                &&& (if room.has_canvas(cid) {
                                    els0 == room.canvases@[room.canvas_index(
                                        cid,
                                    )].canvas.elements@
                                } else {
                                    els0.len() == 1 && crate::state::is_seed_element(els0[0])
                                })
                                &&& #[trigger] room2.canvases@[room2.canvas_index(
                                    cid,
                                )].canvas.elements@ == els0.map_values(
                                    |e: Element| sel_update(e, cmd.elements@, sender.uuid),
                                )
                                &&& ({
                                    let ns = newly_selected(els0, cmd.elements@, sender.uuid);
                                    let nd = newly_deselected(
                                        els0,
                                        cmd.elements@,
                                        sender.uuid,
                                    );
                                    let resp_v = AnnounceTypeView::SelectionResponse {
                                        user_uuid: sender.uuid,
                                        newly_selected: ns,
                                        newly_deselected: nd,
                                        failed_to_select: failed_to_select(
                                            els0,
                                            cmd.elements@,
                                            sender.uuid,
                                        ),
                                    };
                                    // a request that changes no selection (for
                                    // example one wholly held by others) is
                                    // answered to the sender alone: no broadcast
                                    if ns.len() == 0 && nd.len() == 0 {
                                        r matches Ok(AnnounceTo::Respond(respond))
                                            && respond@ == resp_v
                                    } else {
                                        r matches Ok(AnnounceTo::ResponseAndAnnounceToCanvas {
                                            respond,
                                            announce,
                                            canvas,
                                        }) && canvas == cid && respond@ == resp_v && announce@
                                            == AnnounceTypeView::Selection {
                                            user_uuid: sender.uuid,
                                            newly_selected: ns,
                                            newly_deselected: nd,
                                        }
                                    }
                                })
                            }
                    }))
                }))
            }))
}

impl Receive {
    /// Applies a `selection` command from the member at connection id
    /// `addr`: on the sender's canvas, releases what the sender held but
    /// no longer requests, takes what is requested and free, and reports
    /// what is held by others. Requires at least `Edit`. When no
    /// selection changed hands, only the sender is answered and the
    /// canvas hears nothing.
    pub fn process(self, app: &mut App, room_name: &str, addr: u64) -> (r: Result<
        AnnounceTo,
        ErrorType,
    >)
        requires
            old(app).wf(),
        ensures
            final(app).wf(),
            old(app).admined_all() ==> final(app).admined_all(),
            sel_post(*old(app), room_name@, addr, self, *final(app), r),

    {
        let kpos = app.room_pos(room_name);
        let k = match kpos {
            None => {
                return Err(ErrorType::Selection(Error::RoomDoesNotExist));
            },
            Some(k) => k,
        };
        proof {
            app.lemma_room_index_unique(room_name@, k as int);
        }
        let ipos = app.rooms[k].room.user_pos_from_addr(addr);
        let i = match ipos {
            None => {
                return Err(ErrorType::Selection(Error::RoomDoesNotExist));
            },
            Some(i) => i,
        };
        proof {
            app.rooms@[k as int].room.lemma_addr_index_unique(addr, i as int);
        }
        if app.rooms[k].room.users[i].access_level == AccessLevel::View {
            return Err(ErrorType::Selection(Error::NoPermission));
        }
        let uuid = app.rooms[k].room.users[i].uuid;
        let cid = app.rooms[k].room.users[i].canvas;
        let ghost room0 = app.rooms@[k as int].room;
        let kc = app.rooms[k].room.get_or_create_canvas(cid);
        let ghost els0 = app.rooms@[k as int].room.canvases@[kc as int].canvas.elements@;
        proof {
            if room0.has_canvas(cid) {
                let k0 = choose|k0: int|
                    0 <= k0 < room0.canvases@.len() && (#[trigger] room0.canvases@[k0]).id == cid;
                room0.lemma_canvas_index_unique(cid, k0);
                app.rooms@[k as int].room.lemma_canvas_index_unique(cid, k0);
                assert(kc as int == k0);
            }
        }
        let mut ns: Vec<u128> = Vec::new();
        let mut nd: Vec<u128> = Vec::new();
        let mut fs: Vec<u128> = Vec::new();
        let n = app.rooms[k].room.canvases[kc].canvas.elements.len();
        let mut e: usize = 0;
        let ghost pre_loop = *app;
        while e < n
            invariant
                e <= n,
                k < app.rooms@.len(),
                kc < app.rooms@[k as int].room.canvases@.len(),
                n == els0.len(),
                app.rooms@.len() == pre_loop.rooms@.len(),
                forall|j: int| 0 <= j < app.rooms@.len() && j != k
                    ==> #[trigger] app.rooms@[j] == pre_loop.rooms@[j],
                app.rooms@[k as int].name == pre_loop.rooms@[k as int].name,
                app.rooms@[k as int].room.users == pre_loop.rooms@[k as int].room.users,
                app.rooms@[k as int].room.config == pre_loop.rooms@[k as int].room.config,
                app.rooms@[k as int].room.canvases@.len()
                    == pre_loop.rooms@[k as int].room.canvases@.len(),
                forall|j: int| 0 <= j < app.rooms@[k as int].room.canvases@.len() && j != kc
                    ==> #[trigger] app.rooms@[k as int].room.canvases@[j]
                        == pre_loop.rooms@[k as int].room.canvases@[j],
                app.rooms@[k as int].room.canvases@[kc as int].id
                    == pre_loop.rooms@[k as int].room.canvases@[kc as int].id,
                els0 == pre_loop.rooms@[k as int].room.canvases@[kc as int].canvas.elements@,
                app.rooms@[k as int].room.canvases@[kc as int].canvas.elements@.len() == n,
                forall|j: int| 0 <= j < e
                    ==> #[trigger] app.rooms@[k as int].room.canvases@[kc as int].canvas.elements@[j]
                        == sel_update(els0[j], self.elements@, uuid),
                forall|j: int| e <= j < n
                    ==> #[trigger] app.rooms@[k as int].room.canvases@[kc as int].canvas.elements@[j]
                        == els0[j],
                ns@ == newly_selected(els0.take(e as int), self.elements@, uuid),
                nd@ == newly_deselected(els0.take(e as int), self.elements@, uuid),
                fs@ == failed_to_select(els0.take(e as int), self.elements@, uuid),
            decreases n - e,
        {
            proof {
                assert(els0.take(e + 1).drop_last() =~= els0.take(e as int));
                assert(els0.take(e + 1).last() == els0[e as int]);
            }
            let el_uuid = app.rooms[k].room.canvases[kc].canvas.elements[e].uuid;
            let in_req = contains_id(&self.elements, el_uuid);
            let sel = app.rooms[k].room.canvases[kc].canvas.elements[e].selected_by;
            if !in_req && (match sel {
                Option::Some(w) => w == uuid,
                Option::None => false,
            }) {
                nd.push(el_uuid);
                app.rooms[k].room.canvases[kc].canvas.elements[e].selected_by = Option::None;
            } else if in_req && (match sel {
                Option::Some(_) => false,
                Option::None => true,
            }) {
                ns.push(el_uuid);
                app.rooms[k].room.canvases[kc].canvas.elements[e].selected_by = Option::Some(
                    uuid,
                );
            } else if in_req && (match sel {
                Option::Some(w) => w != uuid,
                Option::None => false,
            }) {
                fs.push(el_uuid);
            }
            e = e + 1;
        }
        proof {
            assert(els0.take(n as int) =~= els0);
            assert(app.rooms@[k as int].room.canvases@[kc as int].canvas.elements@
                =~= els0.map_values(|el: Element| sel_update(el, self.elements@, uuid)));
        }
        let ns2 = clone_ids(&ns);
        let nd2 = clone_ids(&nd);
        let changed = ns.len() > 0 || nd.len() > 0;
        let respond = AnnounceType::SelectionResponse {
            user_uuid: uuid,
            newly_selected: ns,
            newly_deselected: nd,
            failed_to_select: fs,
        };
        let r = if changed {
            Ok(
                AnnounceTo::ResponseAndAnnounceToCanvas {
                    respond,
                    announce: AnnounceType::Selection {
                        user_uuid: uuid,
                        newly_selected: ns2,
                        newly_deselected: nd2,
                    },
                    canvas: cid,
                },
            )
        } else {
            Ok(AnnounceTo::Respond(respond))
        };
        proof {
            let room2 = app.rooms@[k as int].room;
            app.rooms@[k as int].room.lemma_canvas_index_unique(cid, kc as int);
            // the room stays well formed: only selections moved, and only
            // to the sender or to nobody
            assert forall|k2: int, e2: int|
                0 <= k2 < room2.canvases@.len() && 0 <= e2
                    < room2.canvases@[k2].canvas.elements@.len() implies (match (
            #[trigger] room2.canvases@[k2].canvas.elements@[e2]).selected_by {
                Option::Some(u) => room2.has_uuid(u),
                Option::None => true,
            }) by {
                let roomp = pre_loop.rooms@[k as int].room;
                if k2 != kc as int {
                    assert(room2.canvases@[k2] == roomp.canvases@[k2]);
                    assert(roomp.canvases@[k2] == room0.canvases@[k2]) by {
                        if !room0.has_canvas(cid) {
                            assert(roomp.canvases@.subrange(
                                0,
                                room0.canvases@.len() as int,
                            ) == room0.canvases@);
                            assert(roomp.canvases@.subrange(
                                0,
                                room0.canvases@.len() as int,
                            )[k2] == roomp.canvases@[k2]);
                        }
                    }
                    match room2.canvases@[k2].canvas.elements@[e2].selected_by {
                        Option::Some(u) => {
                            assert(room0.has_uuid(u));
                            let w = choose|w: int|
                                0 <= w < room0.users@.len() && (#[trigger] room0.users@[w]).uuid
                                    == u;
                            assert(room2.users@[w].uuid == u);
                        },
                        Option::None => {},
                    }
                } else {
                    assert(room2.canvases@[k2].canvas.elements@[e2] == sel_update(
                        els0[e2],
                        self.elements@,
                        uuid,
                    ));
                    match room2.canvases@[k2].canvas.elements@[e2].selected_by {
                        Option::Some(u) => {
                            if u == uuid {
                                assert(room2.users@[i as int].uuid == uuid);
                            } else {
                                assert(els0[e2].selected_by == Option::Some(u));
                                if room0.has_canvas(cid) {
                                    assert(room0.canvases@[kc as int].canvas.elements@[e2]
                                        == els0[e2]);
                                    assert(room0.has_uuid(u));
                                } else {
                                    assert(crate::state::is_seed_element(els0[0]));
                                    assert(els0[e2].selected_by is None);
                                }
                                let w = choose|w: int|
                                    0 <= w < room0.users@.len() && (
                                    #[trigger] room0.users@[w]).uuid == u;
                                assert(room2.users@[w].uuid == u);
                            }
                        },
                        Option::None => {},
                    }
                }
            }
            assert forall|j: int| 0 <= j < app.rooms@.len() implies (
            #[trigger] app.rooms@[j]).room.wf() && (old(app).admined_all()
                ==> app.rooms@[j].room.admined()) by {
                if j != k {
                    assert(app.rooms@[j] == old(app).rooms@[j]);
                }
            }
            assert forall|a: int, b: int| 0 <= a < b < app.rooms@.len() implies (
            #[trigger] app.rooms@[a]).name@ != (#[trigger] app.rooms@[b]).name@ by {
                assert(app.rooms@[a].name@ == old(app).rooms@[a].name@);
                assert(app.rooms@[b].name@ == old(app).rooms@[b].name@);
            }
        }
        r
    }
}

} // verus!
