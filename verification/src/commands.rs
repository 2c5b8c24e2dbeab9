//! Inbound commands, outbound events, and the delivery instruction that
//! every command handler returns.

use vstd::prelude::*;
use crate::color::clone_string;
use crate::element::{Element, ElementView};
use crate::user::{AccessLevel, User, UserView};

verus! {

/// A request to change another user's access level.
pub struct ReceiveAccessLevelAdjustment {
    pub user: u128,
    pub access_level: AccessLevel,
}

/// A request to switch the sender to another canvas.
pub struct ReceiveCanvas {
    pub canvas: u16,
}

/// The body of an inbound command, by its wire tag.
pub enum ReceiveType {
    AccessLevelAdjustment(ReceiveAccessLevelAdjustment),
    Selection(crate::selection::Receive),
    Canvas(ReceiveCanvas),
    Elements(crate::elements::Receive),
}

/// An inbound command envelope: an optional client token and the command.
pub struct ReceiveData {
    pub id: Option<String>,
    pub receive: ReceiveType,
}

/// The mathematical value of an inbound command body.
#[verifier::ext_equal]
pub enum ReceiveTypeView {
    AccessLevelAdjustment { user: u128, access_level: AccessLevel },
    Selection { elements: Seq<u128> },
    Canvas { canvas: u16 },
    Elements { elements: Seq<ElementView>, deleted_elements: Seq<u128> },
}

/// The mathematical value of an inbound command envelope.
#[verifier::ext_equal]
pub struct ReceiveDataView {
    pub id: Option<Seq<char>>,
    pub receive: ReceiveTypeView,
}

impl View for ReceiveType {
    type V = ReceiveTypeView;

    open spec fn view(&self) -> ReceiveTypeView {
        match self {
            ReceiveType::AccessLevelAdjustment(r) => ReceiveTypeView::AccessLevelAdjustment {
                user: r.user,
                access_level: r.access_level,
            },
            ReceiveType::Selection(r) => ReceiveTypeView::Selection { elements: r.elements@ },
            ReceiveType::Canvas(r) => ReceiveTypeView::Canvas { canvas: r.canvas },
            ReceiveType::Elements(r) => ReceiveTypeView::Elements {
                elements: r.elements@.map_values(|e: Element| e@),
                deleted_elements: r.deleted_elements@,
            },
        }
    }
}

impl View for ReceiveData {
    type V = ReceiveDataView;

    open spec fn view(&self) -> ReceiveDataView {
        ReceiveDataView { id: crate::element::opt_str_view(self.id), receive: self.receive@ }
    }
}

/// An outbound event, by its wire tag.
pub enum AnnounceType {
    /// Told to the room when someone new joins it.
    Join { user: User },
    /// Told to the user who just joined: themself, the roster, and the
    /// elements of their canvas.
    OnJoin { user: User, users: Vec<User>, elements: Vec<Element> },
    /// Told to the room when a user leaves, however that happened.
    Disconnect { user: u128 },
    /// Told to the room when a user's public attributes change.
    UserChange { user: User },
    /// Told to a canvas when a user's selection changes.
    Selection { user_uuid: u128, newly_selected: Vec<u128>, newly_deselected: Vec<u128> },
    /// Told to the selecting user alone, with what could not be selected.
    SelectionResponse {
        user_uuid: u128,
        newly_selected: Vec<u128>,
        newly_deselected: Vec<u128>,
        failed_to_select: Vec<u128>,
    },
    /// Told to a user who switched canvas: the canvas and its elements.
    CanvasResponse { canvas: u16, elements: Vec<Element> },
    /// Told when elements were written or deleted.
    ElementsChanged { elements: Vec<Element>, deleted_elements: Vec<u128> },
}

/// The mathematical value of an outbound event.
#[verifier::ext_equal]
pub enum AnnounceTypeView {
    Join { user: UserView },
    OnJoin { user: UserView, users: Seq<UserView>, elements: Seq<ElementView> },
    Disconnect { user: u128 },
    UserChange { user: UserView },
    Selection { user_uuid: u128, newly_selected: Seq<u128>, newly_deselected: Seq<u128> },
    SelectionResponse {
        user_uuid: u128,
        newly_selected: Seq<u128>,
        newly_deselected: Seq<u128>,
        failed_to_select: Seq<u128>,
    },
    CanvasResponse { canvas: u16, elements: Seq<ElementView> },
    ElementsChanged { elements: Seq<ElementView>, deleted_elements: Seq<u128> },
}

impl View for AnnounceType {
    type V = AnnounceTypeView;

    open spec fn view(&self) -> AnnounceTypeView {
        match self {
            AnnounceType::Join { user } => AnnounceTypeView::Join { user: user@ },
            AnnounceType::OnJoin { user, users, elements } => AnnounceTypeView::OnJoin {
                user: user@,
                users: users@.map_values(|u: User| u@),
                elements: elements@.map_values(|e: Element| e@),
            },
            AnnounceType::Disconnect { user } => AnnounceTypeView::Disconnect { user: *user },
            AnnounceType::UserChange { user } => AnnounceTypeView::UserChange { user: user@ },
            AnnounceType::Selection { user_uuid, newly_selected, newly_deselected } =>
                AnnounceTypeView::Selection {
                    user_uuid: *user_uuid,
                    newly_selected: newly_selected@,
                    newly_deselected: newly_deselected@,
                },
            AnnounceType::SelectionResponse {
                user_uuid,
                newly_selected,
                newly_deselected,
                failed_to_select,
            } => AnnounceTypeView::SelectionResponse {
                user_uuid: *user_uuid,
                newly_selected: newly_selected@,
                newly_deselected: newly_deselected@,
                failed_to_select: failed_to_select@,
            },
            AnnounceType::CanvasResponse { canvas, elements } => AnnounceTypeView::CanvasResponse {
                canvas: *canvas,
                elements: elements@.map_values(|e: Element| e@),
            },
            AnnounceType::ElementsChanged { elements, deleted_elements } =>
                AnnounceTypeView::ElementsChanged {
                    elements: elements@.map_values(|e: Element| e@),
                    deleted_elements: deleted_elements@,
                },
        }
    }
}

impl AnnounceType {
    /// Wraps this event as a broadcast to the whole room.
    pub fn announce_to_all(self) -> (r: AnnounceTo)
        ensures
            r matches AnnounceTo::All(d) && d@ == self@,
    {
        AnnounceTo::All(self)
    }

    /// Wraps this event as a response to the sender alone.
    pub fn respond_to_sender(self) -> (r: AnnounceTo)
        ensures
            r matches AnnounceTo::Respond(d) && d@ == self@,
    {
        AnnounceTo::Respond(self)
    }
}


/// Everything the access-level handler does, as a relation between the
/// registry and the delivery queue before and after, the command, and
/// the handler's result. The queue grows by the change's own broadcasts.
pub open spec fn ala_post(
    pre: crate::state::App,
    room: Seq<char>,
    addr: u64,
    cmd: ReceiveAccessLevelAdjustment,
    post: crate::state::App,
    r: Result<AnnounceTo, ErrorType>,
    qpre: Seq<AnnounceView>,
    qpost: Seq<AnnounceView>,
) -> bool {
    &&& (r is Err ==> post.rooms@ == pre.rooms@ && qpost == qpre)
    &&& (!pre.has_room(room) ==> r == Err::<AnnounceTo, ErrorType>(
                ErrorType::UserChange(UserChangeError::RoomDoesNotExist),
            ) && post.rooms@ == pre.rooms@)
    &&& (pre.has_room(room) ==> ({
                let k = pre.room_index(room);
                let room = pre.rooms@[k].room;
                &&& (!room.has_addr(addr) ==> r == Err::<AnnounceTo, ErrorType>(
                    ErrorType::UserChange(UserChangeError::RoomDoesNotExist),
                ) && post.rooms@ == pre.rooms@)
                &&& (room.has_addr(addr) ==> ({
                    let sender = room.users@[room.addr_index(addr)];
                    &&& (sender.access_level != AccessLevel::Admin ==> r == Err::<
                        AnnounceTo,
                        ErrorType,
                    >(ErrorType::UserChange(UserChangeError::NoPermission)) && post.rooms@ == pre.rooms@)
                    &&& (sender.access_level == AccessLevel::Admin ==> ({
                        &&& (!room.has_uuid(cmd.user) ==> r == Err::<AnnounceTo, ErrorType>(
                            ErrorType::UserChange(UserChangeError::UserDoesNotExist),
                        ) && post.rooms@ == pre.rooms@)
                        &&& (room.has_uuid(cmd.user) ==> ({
                            let i = room.uuid_index(cmd.user);
                            let users1 = crate::state::set_level(
                                room.users@,
                                i,
                                cmd.access_level,
                            );
                            let demote = cmd.access_level == AccessLevel::Admin
                                && crate::state::has_other_admin(room.users@, i);
                            let j = crate::state::other_admin_index(room.users@, i);
                            let users2 = if demote {
                                crate::state::set_level(users1, j, AccessLevel::Edit)
                            } else {
                                users1
                            };
                            &&& r == Ok::<AnnounceTo, ErrorType>(AnnounceTo::Silent)
                            &&& post.rooms@.len() == pre.rooms@.len()
                            &&& (forall|j2: int| 0 <= j2 < pre.rooms@.len() && j2 != k
                                ==> #[trigger] post.rooms@[j2] == pre.rooms@[j2])
                            &&& post.rooms@[k].name == pre.rooms@[k].name
                            &&& post.rooms@[k].room.users@ == users2
                            &&& (cmd.access_level == AccessLevel::View ==> (forall|
                                k2: int,
                                e: int,
                            |
                                0 <= k2 < post.rooms@[k].room.canvases@.len() && 0 <= e
                                    < post.rooms@[k].room.canvases@[k2].canvas.elements@.len()
                                    ==> (#[trigger] post.rooms@[k].room.canvases@[k2].canvas.elements@[e]).selected_by
                                        != Option::Some(cmd.user)))
                            &&& qpost == qpre.push(
                                AnnounceView {
                                    targets: crate::state::addrs_of(room.users@),
                                    id: Option::None,
                                    payload: PayloadView::Event(
                                        AnnounceTypeView::UserChange {
                                            user: crate::state::public_view(users1[i]),
                                        },
                                    ),
                                },
                            ) + (if demote {
                                seq![
                                    AnnounceView {
                                        targets: crate::state::addrs_of(room.users@),
                                        id: Option::None,
                                        payload: PayloadView::Event(
                                            AnnounceTypeView::UserChange {
                                                user: crate::state::public_view(users2[j]),
                                            },
                                        ),
                                    },
                                ]
                            } else {
                                Seq::<AnnounceView>::empty()
                            })
                        }))
                    }))
                }))
            }))
}

impl ReceiveAccessLevelAdjustment {
    /// Applies an `access_level_adjustment` command from the member at
    /// connection id `addr`: only an admin may adjust levels; the target
    /// is changed (and any other admin demoted) by the room.
    pub fn process(
        self,
        app: &mut crate::state::App,
        room_name: &str,
        addr: u64,
        out: &mut Vec<Announce>,
    ) -> (r: Result<AnnounceTo, ErrorType>)
        requires
            old(app).wf(),
        ensures
            final(app).wf(),
            // every room keeps its admin, except when the admin demoted
            // themself: the one command that can leave a room adminless
            old(app).admined_all() && (self.access_level == AccessLevel::Admin || (old(
                app,
            ).has_room(room_name@) ==> ({
                let room = old(app).rooms@[old(app).room_index(room_name@)].room;
                room.has_uuid(self.user) ==> room.users@[room.uuid_index(self.user)].access_level
                    != AccessLevel::Admin
            }))) ==> final(app).admined_all(),
            ala_post(
                *old(app),
                room_name@,
                addr,
                self,
                *final(app),
                r,
                announces_view(old(out)@),
                announces_view(final(out)@),
            ),
    {
        let kpos = app.room_pos(room_name);
        let k = match kpos {
            None => {
                return Err(ErrorType::UserChange(UserChangeError::RoomDoesNotExist));
            },
            Some(k) => k,
        };
        proof {
            app.lemma_room_index_unique(room_name@, k as int);
        }
        let ipos = app.rooms[k].room.user_pos_from_addr(addr);
        let i = match ipos {
            None => {
                return Err(ErrorType::UserChange(UserChangeError::RoomDoesNotExist));
            },
            Some(i) => i,
        };
        proof {
            app.rooms@[k as int].room.lemma_addr_index_unique(addr, i as int);
        }
        if !(app.rooms[k].room.users[i].access_level == AccessLevel::Admin) {
            return Err(ErrorType::UserChange(UserChangeError::NoPermission));
        }
        let successful = app.rooms[k].room.change_access_level(
            self.user,
            self.access_level,
            out,
        );
        if !successful {
            proof {
                assert(app.rooms@ =~= old(app).rooms@);
            }
            return Err(ErrorType::UserChange(UserChangeError::UserDoesNotExist));
        }
        proof {
            assert forall|j: int| 0 <= j < app.rooms@.len() implies (
            #[trigger] app.rooms@[j]).room.wf() by {
                if j != k {
                    assert(app.rooms@[j] == old(app).rooms@[j]);
                }
            }
            if old(app).admined_all() && (self.access_level == AccessLevel::Admin
                || old(app).rooms@[k as int].room.users@[old(app).rooms@[k as int].room.uuid_index(
                self.user,
            )].access_level != AccessLevel::Admin) {
                assert forall|j: int| 0 <= j < app.rooms@.len() implies (
                #[trigger] app.rooms@[j]).room.admined() by {
                    if j != k {
                        assert(app.rooms@[j] == old(app).rooms@[j]);
                    }
                }
            }
            assert forall|a: int, b: int| 0 <= a < b < app.rooms@.len() implies (
            #[trigger] app.rooms@[a]).name@ != (#[trigger] app.rooms@[b]).name@ by {
                assert(app.rooms@[a].name@ == old(app).rooms@[a].name@);
                assert(app.rooms@[b].name@ == old(app).rooms@[b].name@);
            }
        }
        Ok(AnnounceTo::Silent)
    }
}


/// Everything the canvas handler does, as a relation between the
/// registry before and after, the command, and the handler's result.
pub open spec fn canvas_post(
    pre: crate::state::App,
    room: Seq<char>,
    addr: u64,
    cmd: ReceiveCanvas,
    post: crate::state::App,
    r: Result<AnnounceTo, ErrorType>,
) -> bool {
    &&& (r is Err ==> post.rooms@ == pre.rooms@ && r == Err::<
                AnnounceTo,
                ErrorType,
            >(ErrorType::UserChange(UserChangeError::RoomDoesNotExist)))
    &&& ((r is Err) == (!pre.has_room(room) || !pre.rooms@[pre.room_index(
                room,
            )].room.has_addr(addr)))
    &&& (r is Ok ==> ({
                let k = pre.room_index(room);
                let room = pre.rooms@[k].room;
                let i = room.addr_index(addr);
                let room2 = post.rooms@[k].room;
                &&& post.rooms@.len() == pre.rooms@.len()
                &&& (forall|j: int| 0 <= j < pre.rooms@.len() && j != k
                    ==> #[trigger] post.rooms@[j] == pre.rooms@[j])
                &&& post.rooms@[k].name == pre.rooms@[k].name
                &&& room2.users@ == room.users@.update(
                    i,
                    crate::state::RoomUser { canvas: cmd.canvas, ..room.users@[i] },
                )
                &&& room2.has_canvas(cmd.canvas)
                &&& (r matches Ok(AnnounceTo::ResponseAndAnnounce { respond, announce })
                    && respond@ == AnnounceTypeView::CanvasResponse {
                    canvas: cmd.canvas,
                    elements: room2.canvases@[room2.canvas_index(
                        cmd.canvas,
                    )].canvas.elements@.map_values(|e: Element| e@),
                } && announce@ == AnnounceTypeView::UserChange {
                    user: crate::state::public_view(room2.users@[i]),
                })
            }))
}

impl ReceiveCanvas {
    /// Applies a `canvas` command: moves the sender to the requested
    /// canvas (seeding it if new), clears the sender's selections on it,
    /// responds with that canvas's elements, and announces the change.
    pub fn process(
        self,
        app: &mut crate::state::App,
        room_name: &str,
        addr: u64,
    ) -> (r: Result<AnnounceTo, ErrorType>)
        requires
            old(app).wf(),
        ensures
            final(app).wf(),
            old(app).admined_all() ==> final(app).admined_all(),
            canvas_post(*old(app), room_name@, addr, self, *final(app), r),
    {
        let kpos = app.room_pos(room_name);
        let k = match kpos {
            None => {
                return Err(ErrorType::UserChange(UserChangeError::RoomDoesNotExist));
            },
            Some(k) => k,
        };
        proof {
            app.lemma_room_index_unique(room_name@, k as int);
        }
        let ghost room0 = app.rooms@[k as int].room;
        let sw = app.rooms[k].room.switch_canvas(addr, self.canvas);
        match sw {
            None => {
                proof {
                    assert(app.rooms@ =~= old(app).rooms@);
                }
                Err(ErrorType::UserChange(UserChangeError::RoomDoesNotExist))
            },
            Some(_) => {
                proof {
                    let i = room0.addr_index(addr);
                    assert(app.rooms@[k as int].room.users@[i].addr == addr);
                }
                let ipos = app.rooms[k].room.user_pos_from_addr(addr);
                let i = match ipos {
                    None => {
                        proof {
                            assert(false);
                        }
                        return Err(ErrorType::UserChange(UserChangeError::RoomDoesNotExist));
                    },
                    Some(i) => i,
                };
                proof {
                    app.rooms@[k as int].room.lemma_addr_index_unique(addr, i as int);
                    assert(i as int == room0.addr_index(addr)) by {
                        room0.lemma_addr_index_unique(addr, i as int);
                    }
                }
                let user = app.rooms[k].room.users[i].to_user();
                let kcpos = app.rooms[k].room.canvas_pos(self.canvas);
                let kc = match kcpos {
                    None => {
                        proof {
                            assert(false);
                        }
                        return Err(ErrorType::UserChange(UserChangeError::RoomDoesNotExist));
                    },
                    Some(kc) => kc,
                };
                proof {
                    app.rooms@[k as int].room.lemma_canvas_index_unique(self.canvas, kc as int);
                }
                let elements = crate::element::clone_elements(
                    &app.rooms[k].room.canvases[kc].canvas.elements,
                );
                proof {
                    assert forall|j: int| 0 <= j < app.rooms@.len() implies (
                    #[trigger] app.rooms@[j]).room.wf() && (old(app).admined_all()
                        ==> app.rooms@[j].room.admined()) by {
                        if j != k {
                            assert(app.rooms@[j] == old(app).rooms@[j]);
                        }
                    }
                    assert forall|a: int, b: int| 0 <= a < b < app.rooms@.len() implies (
                    #[trigger] app.rooms@[a]).name@ != (#[trigger] app.rooms@[b]).name@ by {
                        assert(app.rooms@[a].name@ == old(app).rooms@[a].name@);
                        assert(app.rooms@[b].name@ == old(app).rooms@[b].name@);
                    }
                }
                Ok(
                    AnnounceTo::ResponseAndAnnounce {
                        respond: AnnounceType::CanvasResponse { canvas: self.canvas, elements },
                        announce: AnnounceType::UserChange { user },
                    },
                )
            },
        }
    }
}

/// What a handler asks the room to deliver.
pub enum AnnounceTo {
    /// One event to every user in the room.
    All(AnnounceType),
    /// One event to the sender alone.
    Respond(AnnounceType),
    /// One event to the sender, a different one to everyone else.
    ResponseAndAnnounce { respond: AnnounceType, announce: AnnounceType },
    /// As above, announcing only to users on the given canvas.
    ResponseAndAnnounceToCanvas { respond: AnnounceType, announce: AnnounceType, canvas: u16 },
    /// Nothing to deliver.
    Silent,
}

/// An error raised while changing a user's access level.
#[derive(Clone, Copy, Debug, PartialEq, Eq, Structural)]
pub enum UserChangeError {
    RoomDoesNotExist,
    NoPermission,
    UserDoesNotExist,
}

/// The error of a failed command, by the command family it came from.
#[derive(Clone, Copy, Debug, PartialEq, Eq, Structural)]
pub enum ErrorType {
    Selection(crate::selection::Error),
    Elements(crate::elements::Error),
    UserChange(UserChangeError),
}

impl ErrorType {
    /// The snake_case wire code of this error.
    pub open spec fn code(self) -> Seq<char> {
        match self {
            ErrorType::Selection(crate::selection::Error::NoPermission)
                | ErrorType::Elements(crate::elements::Error::NoPermission)
                | ErrorType::UserChange(UserChangeError::NoPermission) => seq![
                'n', 'o', '_', 'p', 'e', 'r', 'm', 'i', 's', 's', 'i', 'o', 'n',
            ],
            ErrorType::Selection(crate::selection::Error::RoomDoesNotExist)
                | ErrorType::Elements(crate::elements::Error::RoomDoesNotExist)
                | ErrorType::UserChange(UserChangeError::RoomDoesNotExist) => seq![
                'r', 'o', 'o', 'm', '_', 'd', 'o', 'e', 's', '_', 'n', 'o', 't', '_', 'e', 'x',
                'i', 's', 't',
            ],
            ErrorType::UserChange(UserChangeError::UserDoesNotExist) => seq![
                'u', 's', 'e', 'r', '_', 'd', 'o', 'e', 's', '_', 'n', 'o', 't', '_', 'e', 'x',
                'i', 's', 't',
            ],
        }
    }
}

/// What one delivery carries: an event, or an error code echoed back
/// with the client's token.
pub enum Payload {
    Event(AnnounceType),
    Failure(ErrorType),
}

/// The mathematical value of a delivery's payload.
#[verifier::ext_equal]
pub enum PayloadView {
    Event(AnnounceTypeView),
    Failure(ErrorType),
}

impl View for Payload {
    type V = PayloadView;

    open spec fn view(&self) -> PayloadView {
        match self {
            Payload::Event(d) => PayloadView::Event(d@),
            Payload::Failure(e) => PayloadView::Failure(*e),
        }
    }
}

/// One delivery: a payload, the client token to echo, and the connection
/// ids to deliver it to. The payload is serialized once for all targets.
pub struct Announce {
    pub targets: Vec<u64>,
    pub id: Option<String>,
    pub payload: Payload,
}

/// The mathematical value of a delivery.
#[verifier::ext_equal]
pub struct AnnounceView {
    pub targets: Seq<u64>,
    pub id: Option<Seq<char>>,
    pub payload: PayloadView,
}

impl View for Announce {
    type V = AnnounceView;

    open spec fn view(&self) -> AnnounceView {
        AnnounceView {
            targets: self.targets@,
            id: crate::element::opt_str_view(self.id),
            payload: self.payload@,
        }
    }
}

/// The view of a list of deliveries.
pub open spec fn announces_view(s: Seq<Announce>) -> Seq<AnnounceView> {
    s.map_values(|a: Announce| a@)
}


/// What dispatching one command does: the routed handler's own
/// postcondition holds of the registry and its result, and the delivery
/// queue then grows by exactly the deliveries that result asks of the
/// sender's room.
pub open spec fn dispatched(
    pre: crate::state::App,
    room: Seq<char>,
    addr: u64,
    idv: Option<Seq<char>>,
    cmd: ReceiveType,
    post: crate::state::App,
    qpre: Seq<AnnounceView>,
    qpost: Seq<AnnounceView>,
    r: Result<AnnounceTo, ErrorType>,
) -> bool {
    let announce_part = if post.has_room(room) {
        post.rooms@[post.room_index(room)].room.announce_frames(r, addr, idv)
    } else {
        Seq::empty()
    };
    match cmd {
        ReceiveType::AccessLevelAdjustment(rx) => exists|mid: Seq<AnnounceView>|
            #[trigger] ala_post(pre, room, addr, rx, post, r, qpre, mid) && qpost == mid
                + announce_part,
        ReceiveType::Selection(rx) => crate::selection::sel_post(pre, room, addr, rx, post, r)
            && qpost == qpre + announce_part,
        ReceiveType::Canvas(rx) => canvas_post(pre, room, addr, rx, post, r) && qpost == qpre
            + announce_part,
        ReceiveType::Elements(rx) => crate::elements::elems_post(pre, room, addr, rx, post, r)
            && qpost == qpre + announce_part,
    }
}

impl ReceiveData {
    /// Routes an inbound command to its handler under the registry, then
    /// queues the deliveries that the handler's instruction asks for.
    /// Returns (as a ghost value) the handler's result, which the
    /// postcondition ties to the routed handler's own contract.
    pub fn process(
        self,
        app: &mut crate::state::App,
        room_name: &str,
        addr: u64,
        out: &mut Vec<Announce>,
    ) -> (r: Ghost<Result<AnnounceTo, ErrorType>>)
        requires
            old(app).wf(),
        ensures
            final(app).wf(),
            old(app).admined_all() && (match self.receive {
                ReceiveType::AccessLevelAdjustment(rx) => rx.access_level == AccessLevel::Admin
                    || (old(app).has_room(room_name@) ==> ({
                    let room = old(app).rooms@[old(app).room_index(room_name@)].room;
                    room.has_uuid(rx.user) ==> room.users@[room.uuid_index(
                        rx.user,
                    )].access_level != AccessLevel::Admin
                })),
                _ => true,
            }) ==> final(app).admined_all(),
            dispatched(
                *old(app),
                room_name@,
                addr,
                crate::element::opt_str_view(self.id),
                self.receive,
                *final(app),
                announces_view(old(out)@),
                announces_view(final(out)@),
                r@,
            ),
    {
        let ReceiveData { id, receive } = self;
        let result = match receive {
            ReceiveType::AccessLevelAdjustment(r0) => r0.process(app, room_name, addr, out),
            ReceiveType::Selection(r0) => r0.process(app, room_name, addr),
            ReceiveType::Canvas(r0) => r0.process(app, room_name, addr),
            ReceiveType::Elements(r0) => r0.process(app, room_name, addr),
        };
        let ghost gres = result;
        let ghost mid = announces_view(out@);
        let kpos = app.room_pos(room_name);
        match kpos {
            Some(k) => {
                proof {
                    app.lemma_room_index_unique(room_name@, k as int);
                }
                app.rooms[k].room.announce(result, addr, id, out);
                proof {
                    assert(announces_view(out@) =~= mid + app.rooms@[
                        k as int
                    ].room.announce_frames(gres, addr, crate::element::opt_str_view(id)));
                }
            },
            None => {
                proof {
                    assert(announces_view(out@) =~= mid + Seq::<AnnounceView>::empty());
                }
            },
        }
        Ghost(gres)
    }
}

/// Parses one text frame and dispatches it, returning the addressed
/// text frames to deliver: the render of exactly the deliveries that
/// processing the parsed command produced. A malformed frame is
/// ignored: nothing changes and nothing is sent.
pub fn dispatch_text(
    app: &mut crate::state::App,
    room_name: &str,
    addr: u64,
    text: &str,
) -> (out: Vec<crate::codec::Outgoing>)
    requires
        old(app).wf(),
    ensures
        final(app).wf(),
        crate::codec::p_envelope(text@) is None ==> *final(app) == *old(app) && out@.len() == 0,
        crate::codec::p_envelope(text@) matches Option::Some(dv) ==> exists|
            data: ReceiveData,
            res: Result<AnnounceTo, ErrorType>,
            frames: Seq<AnnounceView>,
        |
            {
                &&& data@ == dv
                &&& #[trigger] dispatched(
                    *old(app),
                    room_name@,
                    addr,
                    dv.id,
                    data.receive,
                    *final(app),
                    Seq::<AnnounceView>::empty(),
                    frames,
                    res,
                )
                &&& out@.map_values(|o: crate::codec::Outgoing| (o.addr, o.text@))
                    == crate::codec::outgoings_of(frames)
            },
        old(app).admined_all() && (match crate::codec::p_envelope(text@) {
            Option::Some(d) => match d.receive {
                ReceiveTypeView::AccessLevelAdjustment { user, access_level } => access_level
                    == AccessLevel::Admin || (old(app).has_room(room_name@) ==> ({
                    let room = old(app).rooms@[old(app).room_index(room_name@)].room;
                    room.has_uuid(user) ==> room.users@[room.uuid_index(user)].access_level
                        != AccessLevel::Admin
                })),
                _ => true,
            },
            Option::None => true,
        }) ==> final(app).admined_all(),
{
    let mut frames: Vec<Announce> = Vec::new();
    match crate::codec::parse_command(text) {
        Some(data) => {
            let ghost gdata = data;
            let ghost gid = crate::element::opt_str_view(data.id);
            let res = data.process(app, room_name, addr, &mut frames);
            let out = crate::codec::render(&frames);
            proof {
                assert(crate::codec::p_envelope(text@) matches Option::Some(dv) && dv
                    == gdata@);
                assert(announces_view(Seq::<Announce>::empty()) =~= Seq::<
                    AnnounceView,
                >::empty());
                assert(dispatched(
                    *old(app),
                    room_name@,
                    addr,
                    gid,
                    gdata.receive,
                    *app,
                    Seq::<AnnounceView>::empty(),
                    announces_view(frames@),
                    res@,
                ));
            }
            out
        },
        None => {
            let out = crate::codec::render(&frames);
            proof {
                assert(announces_view(frames@) =~= Seq::<AnnounceView>::empty());
                assert(crate::codec::outgoings_of(announces_view(frames@)) =~= Seq::<(
                    u64,
                    Seq<char>,
                )>::empty());
                assert(out@.map_values(|o: crate::codec::Outgoing| (o.addr, o.text@)).len()
                    == 0);
            }
            out
        },
    }
}

} // verus!
