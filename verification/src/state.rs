//! Rooms and the registry: the authoritative state of every session.
//!
//! A room owns its users, its canvases and its configuration. Every
//! mutating operation returns the deliveries it owes, so that the
//! transport layer only moves text; the operations' contracts pin down
//! both the new state and the deliveries.

use vstd::prelude::*;
use vstd::string::*;
use crate::color::{clone_string, Color};
use crate::commands::{
    announces_view, Announce, AnnounceTo, AnnounceType, AnnounceTypeView, AnnounceView, Payload,
    PayloadView,
};
use crate::element::{Element, ElementText, ElementType, ElementView, ScaleRate, TextAlignment};
use crate::user::{AccessLevel, User, UserView};

verus! {

/// The text of the seed element: `Hello, world`.
pub open spec fn hello_seq() -> Seq<char> {
    seq!['H', 'e', 'l', 'l', 'o', ',', ' ', 'w', 'o', 'r', 'l', 'd']
}

fn hello_string() -> (r: String)
    ensures
        r@ == hello_seq(),
{
    let r = "Hello, world".to_owned();
    proof {
        reveal_strlit("Hello, world");
        assert(r@ =~= hello_seq());
    }
    r
}

/// The shape of the element that seeds a fresh canvas: an unselected
/// default-styled text element reading `Hello, world`, with a random
/// color and a random identifier.
pub open spec fn is_seed_element(e: Element) -> bool {
    &&& e@.ty matches crate::element::ElementTypeView::Text(t)
        && t.content == hello_seq()
        && t.align == TextAlignment::Center
        && t.size == seq!['3', '0']
        && t.font == crate::element::FontView::Sans(Option::<Seq<char>>::None)
        && t.background_color == crate::color::transparent_seq()
        && t.background_blur == seq!['0']
        && crate::color::color_wf(t.color)
        && crate::color::palette_member(t.color)
    &&& e@.last_edited_by is None
    &&& e@.selected_by is None
    &&& e@.x == seq!['0']
    &&& e@.y == seq!['0']
    &&& e@.anchor == (crate::element::AnchorView {
        top: seq!['0', '.', '5'],
        left: seq!['0', '.', '5'],
    })
    &&& e@.rotation == seq!['0']
    &&& e@.scale_rate == ScaleRate::Plain
    &&& e@.z_index == seq!['0']
    &&& e@.tags == Seq::<Seq<char>>::empty()
}

/// A freshly seeded canvas: exactly the one seed element.
pub open spec fn is_seed_canvas(c: RoomCanvas) -> bool {
    c.elements@.len() == 1 && is_seed_element(c.elements@[0])
}

/// One canvas of a room: an ordered list of elements.
pub struct RoomCanvas {
    pub elements: Vec<Element>,
}

impl Default for RoomCanvas {
    /// A fresh canvas holds one seed element.
    fn default() -> (r: Self)
        ensures
            is_seed_canvas(r),
    {
        let el = Element::new(ElementType::Text(ElementText::new(hello_string())));
        let mut elements: Vec<Element> = Vec::new();
        elements.push(el);
        RoomCanvas { elements }
    }
}

impl RoomCanvas {
    /// The position of the element with the given id, if present.
    pub fn pos_of_element(&self, uuid: u128) -> (r: Option<usize>)
        ensures
            match r {
                Some(i) => i < self.elements@.len() && self.elements@[i as int].uuid == uuid
                    && (forall|j: int| 0 <= j < i ==> self.elements@[j].uuid != uuid),
                None => forall|j: int|
                    0 <= j < self.elements@.len() ==> self.elements@[j].uuid != uuid,
            },
    {
        let mut i: usize = 0;
        while i < self.elements.len()
            invariant
                i <= self.elements@.len(),
                forall|j: int| 0 <= j < i ==> self.elements@[j].uuid != uuid,
            decreases self.elements@.len() - i,
        {
            if self.elements[i].uuid == uuid {
                return Some(i);
            }
            i = i + 1;
        }
        None
    }

    /// The element with the given id, if present.
    pub fn get_element(&self, uuid: u128) -> (r: Option<&Element>)
        ensures
            match r {
                Some(e) => exists|i: int|
                    0 <= i < self.elements@.len() && self.elements@[i] == *e && e.uuid == uuid,
                None => forall|j: int|
                    0 <= j < self.elements@.len() ==> self.elements@[j].uuid != uuid,
            },
    {
        match self.pos_of_element(uuid) {
            Some(i) => Some(&self.elements[i]),
            None => None,
        }
    }
}

/// Immutable per-room settings, fixed when the room is created.
pub struct RoomConfig {
    /// Whether newly joined users may edit, or only view.
    pub new_users_default_editor: bool,
    /// The room's password, set by the client that created the room.
    pub password: Option<String>,
}

impl RoomConfig {
    /// A fresh configuration with the given password and view-only
    /// newcomers.
    pub fn new(password: Option<String>) -> (r: RoomConfig)
        ensures
            r.password == password,
            r.new_users_default_editor == false,
    {
        RoomConfig { new_users_default_editor: false, password }
    }

    /// The access level a newcomer is admitted at when the room already
    /// has an admin.
    pub fn get_default_access_level(&self) -> (r: AccessLevel)
        ensures
            r == self.default_access_level(),
    {
        if self.new_users_default_editor {
            AccessLevel::Edit
        } else {
            AccessLevel::View
        }
    }

    /// The access level a newcomer is admitted at when the room already
    /// has an admin.
    pub open spec fn default_access_level(&self) -> AccessLevel {
        if self.new_users_default_editor {
            AccessLevel::Edit
        } else {
            AccessLevel::View
        }
    }
}

/// The mathematical value of a room member.
#[verifier::ext_equal]
pub struct RoomUserView {
    pub addr: u64,
    pub uuid: u128,
    pub username: Seq<char>,
    pub color: Seq<char>,
    pub canvas: u16,
    pub access_level: AccessLevel,
}

/// A member of a room. The connection key is `addr`; the identity is
/// `uuid`. The member's outbound queue lives with the transport layer,
/// keyed by `addr`.
pub struct RoomUser {
    pub addr: u64,
    pub uuid: u128,
    pub username: String,
    pub color: Color,
    pub canvas: u16,
    pub access_level: AccessLevel,
}

impl View for RoomUser {
    type V = RoomUserView;

    open spec fn view(&self) -> RoomUserView {
        RoomUserView {
            addr: self.addr,
            uuid: self.uuid,
            username: self.username@,
            color: self.color@,
            canvas: self.canvas,
            access_level: self.access_level,
        }
    }
}

/// The wire-facing part of a member.
pub open spec fn public_view(u: RoomUser) -> UserView {
    UserView {
        color: u.color@,
        username: u.username@,
        canvas: u.canvas,
        uuid: u.uuid,
        access_level: u.access_level,
    }
}

impl RoomUser {
    /// The wire-facing part of this member.
    pub fn to_user(&self) -> (r: User)
        ensures
            r@ == public_view(*self),
    {
        let r = User {
            color: self.color.clone(),
            username: clone_string(&self.username),
            canvas: self.canvas,
            uuid: self.uuid,
            access_level: self.access_level,
        };
        proof {
            assert(r@ =~= public_view(*self));
        }
        r
    }
}

/// One canvas of a room together with its id.
pub struct CanvasEntry {
    pub id: u16,
    pub canvas: RoomCanvas,
}

/// Clears a selection held by `u`: the element, unselected if `u` held
/// it, untouched otherwise.
pub open spec fn scrub_elem(e: Element, u: u128) -> Element {
    if e.selected_by == Option::Some(u) {
        Element { selected_by: Option::None, ..e }
    } else {
        e
    }
}

/// The connection ids of all members, in roster order.
pub open spec fn addrs_of(users: Seq<RoomUser>) -> Seq<u64> {
    users.map_values(|u: RoomUser| u.addr)
}

/// The connection ids of all members but `sender`, in roster order.
pub open spec fn addrs_except(users: Seq<RoomUser>, sender: u64) -> Seq<u64>
    decreases users.len(),
{
    if users.len() == 0 {
        Seq::empty()
    } else {
        let rest = addrs_except(users.drop_last(), sender);
        if users.last().addr != sender {
            rest.push(users.last().addr)
        } else {
            rest
        }
    }
}

/// The connection ids of all members on canvas `c` but `sender`, in
/// roster order.
pub open spec fn addrs_on_canvas_except(users: Seq<RoomUser>, c: u16, sender: u64) -> Seq<u64>
    decreases users.len(),
{
    if users.len() == 0 {
        Seq::empty()
    } else {
        let rest = addrs_on_canvas_except(users.drop_last(), c, sender);
        if users.last().canvas == c && users.last().addr != sender {
            rest.push(users.last().addr)
        } else {
            rest
        }
    }
}

/// The roster with member `i`'s access level set to `l`.
pub open spec fn set_level(users: Seq<RoomUser>, i: int, l: AccessLevel) -> Seq<RoomUser> {
    users.update(i, RoomUser { access_level: l, ..users[i] })
}

/// The sequence with element `i` removed.
pub open spec fn remove_at<T>(s: Seq<T>, i: int) -> Seq<T> {
    s.subrange(0, i) + s.subrange(i + 1, s.len() as int)
}

/// A named multi-user session: members, canvases and configuration.
pub struct Room {
    /// The name of this room.
    pub name: String,
    /// All members currently in this room, in join order.
    pub users: Vec<RoomUser>,
    /// All canvases created in this room so far.
    pub canvases: Vec<CanvasEntry>,
    /// Settings fixed at creation.
    pub config: RoomConfig,
}

impl Room {
    /// Some member has this identity.
    pub open spec fn has_uuid(self, u: u128) -> bool {
        exists|i: int| 0 <= i < self.users@.len() && #[trigger] self.users@[i].uuid == u
    }

    /// Some member has this connection id.
    pub open spec fn has_addr(self, a: u64) -> bool {
        exists|i: int| 0 <= i < self.users@.len() && #[trigger] self.users@[i].addr == a
    }

    /// The roster position of the member with identity `u`.
    pub open spec fn uuid_index(self, u: u128) -> int {
        choose|i: int| 0 <= i < self.users@.len() && #[trigger] self.users@[i].uuid == u
    }

    /// The roster position of the member with connection id `a`.
    pub open spec fn addr_index(self, a: u64) -> int {
        choose|i: int| 0 <= i < self.users@.len() && #[trigger] self.users@[i].addr == a
    }

    /// Some member is the admin.
    pub open spec fn has_admin_user(self) -> bool {
        exists|i: int| 0 <= i < self.users@.len()
            && #[trigger] self.users@[i].access_level == AccessLevel::Admin
    }

    /// Connection ids and identities are unique within the room.
    pub open spec fn users_distinct(self) -> bool {
        forall|i: int, j: int| 0 <= i < j < self.users@.len()
            ==> (#[trigger] self.users@[i]).addr != (#[trigger] self.users@[j]).addr
                && self.users@[i].uuid != self.users@[j].uuid
    }

    /// No two members hold `Admin`.
    pub open spec fn at_most_one_admin(self) -> bool {
        forall|i: int, j: int| 0 <= i < j < self.users@.len()
            ==> !((#[trigger] self.users@[i]).access_level == AccessLevel::Admin
                && (#[trigger] self.users@[j]).access_level == AccessLevel::Admin)
    }

    /// Canvas ids are unique within the room.
    pub open spec fn canvases_distinct(self) -> bool {
        forall|i: int, j: int| 0 <= i < j < self.canvases@.len()
            ==> (#[trigger] self.canvases@[i]).id != (#[trigger] self.canvases@[j]).id
    }

    /// The room has a canvas with this id.
    pub open spec fn has_canvas(self, id: u16) -> bool {
        exists|k: int| 0 <= k < self.canvases@.len() && #[trigger] self.canvases@[k].id == id
    }

    /// The position of the canvas with this id.
    pub open spec fn canvas_index(self, id: u16) -> int {
        choose|k: int| 0 <= k < self.canvases@.len() && #[trigger] self.canvases@[k].id == id
    }

    /// Every selection on every canvas is held by a current member.
    pub open spec fn selections_valid(self) -> bool {
        forall|k: int, e: int|
            0 <= k < self.canvases@.len() && 0 <= e < self.canvases@[k].canvas.elements@.len()
                ==> (match #[trigger] self.canvases@[k].canvas.elements@[e].selected_by {
                    Option::Some(u) => self.has_uuid(u),
                    Option::None => true,
                })
    }

    /// The room's structural invariant.
    pub open spec fn wf(self) -> bool {
        &&& self.users_distinct()
        &&& self.at_most_one_admin()
        &&& self.canvases_distinct()
        &&& self.selections_valid()
    }

    /// A live room has an admin: with at least one member, someone (and
    /// under `wf`, exactly one member) holds `Admin`.
    pub open spec fn admined(self) -> bool {
        self.users@.len() >= 1 ==> self.has_admin_user()
    }

    /// Creates a new empty room.
    pub fn new(room_name: String, room_password: Option<String>) -> (r: Room)
        ensures
            r.name == room_name,
            r.users@ == Seq::<RoomUser>::empty(),
            r.canvases@ == Seq::<CanvasEntry>::empty(),
            r.config.password == room_password,
            r.config.new_users_default_editor == false,
            r.wf(),
            r.admined(),
    {
        let r = Room {
            name: room_name,
            users: Vec::new(),
            canvases: Vec::new(),
            config: RoomConfig::new(room_password),
        };
        proof {
            assert(r.users@ =~= Seq::<RoomUser>::empty());
            assert(r.canvases@ =~= Seq::<CanvasEntry>::empty());
        }
        r
    }

    /// The room's settings.
    pub fn get_config(&self) -> (r: &RoomConfig)
        ensures
            r == self.config,
    {
        &self.config
    }

    /// Whether a join attempt's password matches the room's.
    pub fn is_password_correct(&self, guessed_password: Option<&String>) -> (r: bool)
        ensures
            r == match (self.config.password, guessed_password) {
                (Option::Some(p), Option::Some(g)) => p@ == g@,
                (Option::None, Option::None) => true,
                _ => false,
            },
    {
        match (&self.config.password, guessed_password) {
            (Option::Some(p), Option::Some(g)) => str_eq(p.as_str(), g.as_str()),
            (Option::None, Option::None) => true,
            _ => false,
        }
    }

    /// Whether this room requires a password to join.
    pub fn requires_password(&self) -> (r: bool)
        ensures
            r == (self.config.password is Some),
    {
        match &self.config.password {
            Option::Some(_) => true,
            Option::None => false,
        }
    }

    /// The position of the canvas with this id, if it exists.
    pub fn canvas_pos(&self, id: u16) -> (r: Option<usize>)
        ensures
            match r {
                Some(k) => k < self.canvases@.len() && self.canvases@[k as int].id == id,
                None => !self.has_canvas(id),
            },
    {
        let mut k: usize = 0;
        while k < self.canvases.len()
            invariant
                k <= self.canvases@.len(),
                forall|j: int| 0 <= j < k ==> #[trigger] self.canvases@[j].id != id,
            decreases self.canvases@.len() - k,
        {
            if self.canvases[k].id == id {
                return Some(k);
            }
            k = k + 1;
        }
        None
    }

    /// The canvas with this id, if it exists.
    pub fn get_canvas(&self, id: u16) -> (r: Option<&RoomCanvas>)
        ensures
            match r {
                Some(c) => self.has_canvas(id) && exists|k: int|
                    0 <= k < self.canvases@.len() && (#[trigger] self.canvases@[k]).id == id
                        && self.canvases@[k].canvas == *c,
                None => !self.has_canvas(id),
            },
    {
        match self.canvas_pos(id) {
            Some(k) => Some(&self.canvases[k].canvas),
            None => None,
        }
    }

    /// Under distinct canvas ids, any position holding `id` is the
    /// canvas index.
    pub proof fn lemma_canvas_index_unique(self, id: u16, k: int)
        requires
            self.canvases_distinct(),
            0 <= k < self.canvases@.len(),
            self.canvases@[k].id == id,
        ensures
            self.canvas_index(id) == k,
            self.has_canvas(id),
    {
        assert(self.has_canvas(id));
        let k2 = self.canvas_index(id);
        if k2 != k {
            assert(self.canvases@[k2].id == id);
            if k < k2 {
                assert(self.canvases@[k].id != self.canvases@[k2].id);
            } else {
                assert(self.canvases@[k2].id != self.canvases@[k].id);
            }
        }
    }

    /// Under distinct identities, any roster position holding `u` is the
    /// roster index of `u`.
    pub proof fn lemma_uuid_index_unique(self, u: u128, i: int)
        requires
            self.users_distinct(),
            0 <= i < self.users@.len(),
            self.users@[i].uuid == u,
        ensures
            self.uuid_index(u) == i,
            self.has_uuid(u),
    {
        assert(self.has_uuid(u));
        let i2 = self.uuid_index(u);
        if i2 != i {
            assert(self.users@[i2].uuid == u);
            if i < i2 {
                assert(self.users@[i].uuid != self.users@[i2].uuid);
            } else {
                assert(self.users@[i2].uuid != self.users@[i].uuid);
            }
        }
    }

    /// Under distinct connection ids, any roster position holding `a` is
    /// the roster index of `a`.
    pub proof fn lemma_addr_index_unique(self, a: u64, i: int)
        requires
            self.users_distinct(),
            0 <= i < self.users@.len(),
            self.users@[i].addr == a,
        ensures
            self.addr_index(a) == i,
            self.has_addr(a),
    {
        assert(self.has_addr(a));
        let i2 = self.addr_index(a);
        if i2 != i {
            assert(self.users@[i2].addr == a);
            if i < i2 {
                assert(self.users@[i].addr != self.users@[i2].addr);
            } else {
                assert(self.users@[i2].addr != self.users@[i].addr);
            }
        }
    }

    /// The roster position of the member with identity `u`, if present.
    pub fn user_pos(&self, u: u128) -> (r: Option<usize>)
        ensures
            match r {
                Some(i) => i < self.users@.len() && self.users@[i as int].uuid == u,
                None => !self.has_uuid(u),
            },
    {
        let mut i: usize = 0;
        while i < self.users.len()
            invariant
                i <= self.users@.len(),
                forall|j: int| 0 <= j < i ==> #[trigger] self.users@[j].uuid != u,
            decreases self.users@.len() - i,
        {
            if self.users[i].uuid == u {
                return Some(i);
            }
            i = i + 1;
        }
        None
    }

    /// The roster position of the member with connection id `a`, if
    /// present.
    pub fn user_pos_from_addr(&self, a: u64) -> (r: Option<usize>)
        ensures
            match r {
                Some(i) => i < self.users@.len() && self.users@[i as int].addr == a,
                None => !self.has_addr(a),
            },
    {
        let mut i: usize = 0;
        while i < self.users.len()
            invariant
                i <= self.users@.len(),
                forall|j: int| 0 <= j < i ==> #[trigger] self.users@[j].addr != a,
            decreases self.users@.len() - i,
    {
            if self.users[i].addr == a {
                return Some(i);
            }
            i = i + 1;
        }
        None
    }

    /// The member with identity `u`, if present.
    pub fn get_user(&self, user: u128) -> (r: Option<&RoomUser>)
        ensures
            match r {
                Some(ru) => self.has_uuid(user) && ru.uuid == user
                    && exists|i: int| 0 <= i < self.users@.len() && self.users@[i] == *ru,
                None => !self.has_uuid(user),
            },
    {
        match self.user_pos(user) {
            Some(i) => {
                proof {
                    assert(self.has_uuid(user));
                }
                Some(&self.users[i])
            },
            None => None,
        }
    }

    /// The member with connection id `a`, if present.
    pub fn get_user_from_addr(&self, a: u64) -> (r: Option<&RoomUser>)
        ensures
            match r {
                Some(ru) => self.has_addr(a) && ru.addr == a
                    && exists|i: int| 0 <= i < self.users@.len() && self.users@[i] == *ru,
                None => !self.has_addr(a),
            },
    {
        match self.user_pos_from_addr(a) {
            Some(i) => {
                proof {
                    assert(self.has_addr(a));
                }
                Some(&self.users[i])
            },
            None => None,
        }
    }

    /// The current admin of the room, if any.
    pub fn get_admin(&self) -> (r: Option<&RoomUser>)
        ensures
            match r {
                Some(ru) => self.has_admin_user() && ru.access_level == AccessLevel::Admin
                    && exists|i: int| 0 <= i < self.users@.len() && self.users@[i] == *ru,
                None => !self.has_admin_user(),
            },
    {
        let mut i: usize = 0;
        while i < self.users.len()
            invariant
                i <= self.users@.len(),
                forall|j: int| 0 <= j < i
                    ==> #[trigger] self.users@[j].access_level != AccessLevel::Admin,
            decreases self.users@.len() - i,
        {
            if self.users[i].access_level == AccessLevel::Admin {
                return Some(&self.users[i]);
            }
            i = i + 1;
        }
        None
    }

    /// Ensures the canvas with this id exists, seeding it if it is new,
    /// and returns its position.
    pub fn get_or_create_canvas(&mut self, id: u16) -> (k: usize)
        requires
            old(self).canvases_distinct(),
        ensures
            final(self).users == old(self).users,
            final(self).name == old(self).name,
            final(self).config == old(self).config,
            final(self).canvases_distinct(),
            k < final(self).canvases@.len(),
            final(self).canvases@[k as int].id == id,
            final(self).has_canvas(id),
            final(self).canvas_index(id) == k as int,
            if old(self).has_canvas(id) {
                final(self).canvases == old(self).canvases
            } else {
                final(self).canvases@.len() == old(self).canvases@.len() + 1
                    && final(self).canvases@.subrange(0, old(self).canvases@.len() as int)
                        == old(self).canvases@
                    && k as int == old(self).canvases@.len()
                    && is_seed_canvas(final(self).canvases@[k as int].canvas)
            },
    {
        match self.canvas_pos(id) {
            Some(k) => {
                proof {
                    self.lemma_canvas_index_unique(id, k as int);
                }
                k
            },
            None => {
                let k = self.canvases.len();
                self.canvases.push(CanvasEntry { id, canvas: RoomCanvas::default() });
                proof {
                    assert(final(self).canvases@.subrange(0, old(self).canvases@.len() as int)
                        =~= old(self).canvases@);
                    assert(final(self).canvases_distinct()) by {
                        assert(forall|j: int| 0 <= j < old(self).canvases@.len()
                            ==> #[trigger] old(self).canvases@[j].id != id);
                    }
                    self.lemma_canvas_index_unique(id, k as int);
                }
                k
            },
        }
    }

    /// Clears every selection held by `u` on every canvas.
    pub fn scrub_selections(&mut self, u: u128)
        ensures
            final(self).users == old(self).users,
            final(self).name == old(self).name,
            final(self).config == old(self).config,
            final(self).canvases@.len() == old(self).canvases@.len(),
            forall|k: int| 0 <= k < old(self).canvases@.len()
                ==> #[trigger] final(self).canvases@[k].id == old(self).canvases@[k].id
                    && final(self).canvases@[k].canvas.elements@
                        == old(self).canvases@[k].canvas.elements@.map_values(
                        |e: Element| scrub_elem(e, u),
                    ),
    {
        let mut k: usize = 0;
        while k < self.canvases.len()
            invariant
                k <= self.canvases@.len(),
                self.users == old(self).users,
                self.name == old(self).name,
                self.config == old(self).config,
                self.canvases@.len() == old(self).canvases@.len(),
                forall|j: int| 0 <= j < k
                    ==> #[trigger] self.canvases@[j].id == old(self).canvases@[j].id
                        && self.canvases@[j].canvas.elements@
                            == old(self).canvases@[j].canvas.elements@.map_values(
                            |e: Element| scrub_elem(e, u),
                        ),
                forall|j: int| k <= j < self.canvases@.len()
                    ==> #[trigger] self.canvases@[j] == old(self).canvases@[j],
            decreases self.canvases@.len() - k,
        {
            self.scrub_canvas_at(k, u);
            k = k + 1;
        }
    }

    /// Clears every selection held by `u` on the canvas at position `k`.
    pub fn scrub_canvas_at(&mut self, k: usize, u: u128)
        requires
            k < old(self).canvases@.len(),
        ensures
            final(self).users == old(self).users,
            final(self).name == old(self).name,
            final(self).config == old(self).config,
            final(self).canvases@.len() == old(self).canvases@.len(),
            forall|j: int| 0 <= j < old(self).canvases@.len() && j != k
                ==> #[trigger] final(self).canvases@[j] == old(self).canvases@[j],
            final(self).canvases@[k as int].id == old(self).canvases@[k as int].id,
            final(self).canvases@[k as int].canvas.elements@
                == old(self).canvases@[k as int].canvas.elements@.map_values(
                |e: Element| scrub_elem(e, u),
            ),
    {
        let ghost orig = self.canvases@[k as int].canvas.elements@;
        let n = self.canvases[k].canvas.elements.len();
        let mut e: usize = 0;
        while e < n
            invariant
                e <= n,
                k < self.canvases@.len(),
                n == orig.len(),
                self.users == old(self).users,
                self.name == old(self).name,
                self.config == old(self).config,
                self.canvases@.len() == old(self).canvases@.len(),
                forall|j: int| 0 <= j < self.canvases@.len() && j != k
                    ==> #[trigger] self.canvases@[j] == old(self).canvases@[j],
                self.canvases@[k as int].id == old(self).canvases@[k as int].id,
                orig == old(self).canvases@[k as int].canvas.elements@,
                self.canvases@[k as int].canvas.elements@.len() == orig.len(),
                forall|j: int| 0 <= j < e
                    ==> #[trigger] self.canvases@[k as int].canvas.elements@[j]
                        == scrub_elem(orig[j], u),
                forall|j: int| e <= j < orig.len()
                    ==> #[trigger] self.canvases@[k as int].canvas.elements@[j] == orig[j],
            decreases n - e,
        {
            let held = match self.canvases[k].canvas.elements[e].selected_by {
                Option::Some(s) => s == u,
                Option::None => false,
            };
            if held {
                self.canvases[k].canvas.elements[e].selected_by = Option::None;
            }
            e = e + 1;
        }
        proof {
            assert(final(self).canvases@[k as int].canvas.elements@
                =~= orig.map_values(|el: Element| scrub_elem(el, u)));
        }
    }
}


/// A candidate for admin re-election: the first member with `Edit`, or
/// the first member when no one has `Edit`.
pub open spec fn is_elected(users: Seq<RoomUser>, e: int) -> bool {
    ||| (0 <= e < users.len() && users[e].access_level == AccessLevel::Edit
        && (forall|j: int| 0 <= j < e
            ==> (#[trigger] users[j]).access_level != AccessLevel::Edit))
    ||| (e == 0 && users.len() > 0 && (forall|j: int| 0 <= j < users.len()
            ==> (#[trigger] users[j]).access_level != AccessLevel::Edit))
}

impl Room {
    /// The connection ids of all members, in roster order.
    fn all_addrs(&self) -> (r: Vec<u64>)
        ensures
            r@ == addrs_of(self.users@),
    {
        let mut r: Vec<u64> = Vec::new();
        let mut i: usize = 0;
        while i < self.users.len()
            invariant
                i <= self.users@.len(),
                r@.len() == i,
                forall|j: int| 0 <= j < i ==> r@[j] == (#[trigger] self.users@[j]).addr,
            decreases self.users@.len() - i,
        {
            r.push(self.users[i].addr);
            i = i + 1;
        }
        proof {
            assert(r@ =~= addrs_of(self.users@));
        }
        r
    }

    /// The connection ids of all members but `sender`, in roster order.
    fn all_addrs_except(&self, sender: u64) -> (r: Vec<u64>)
        ensures
            r@ == addrs_except(self.users@, sender),
    {
        let mut r: Vec<u64> = Vec::new();
        let mut i: usize = 0;
        while i < self.users.len()
            invariant
                i <= self.users@.len(),
                r@ == addrs_except(self.users@.take(i as int), sender),
            decreases self.users@.len() - i,
        {
            proof {
                assert(self.users@.take(i + 1).drop_last() =~= self.users@.take(i as int));
                assert(self.users@.take(i + 1).last() == self.users@[i as int]);
            }
            if self.users[i].addr != sender {
                r.push(self.users[i].addr);
            }
            i = i + 1;
        }
        proof {
            assert(self.users@.take(self.users@.len() as int) =~= self.users@);
        }
        r
    }

    /// The connection ids of the members on canvas `c` but `sender`, in
    /// roster order.
    fn all_addrs_on_canvas_except(&self, c: u16, sender: u64) -> (r: Vec<u64>)
        ensures
            r@ == addrs_on_canvas_except(self.users@, c, sender),
    {
        let mut r: Vec<u64> = Vec::new();
        let mut i: usize = 0;
        while i < self.users.len()
            invariant
                i <= self.users@.len(),
                r@ == addrs_on_canvas_except(self.users@.take(i as int), c, sender),
            decreases self.users@.len() - i,
        {
            proof {
                assert(self.users@.take(i + 1).drop_last() =~= self.users@.take(i as int));
                assert(self.users@.take(i + 1).last() == self.users@[i as int]);
            }
            if self.users[i].canvas == c && self.users[i].addr != sender {
                r.push(self.users[i].addr);
            }
            i = i + 1;
        }
        proof {
            assert(self.users@.take(self.users@.len() as int) =~= self.users@);
        }
        r
    }

    /// Queues one event for every member. The event is serialized once
    /// for all of them when the deliveries are rendered.
    pub fn announce_to_all(&self, data: AnnounceType, id: Option<String>, out: &mut Vec<Announce>)
        ensures
            announces_view(final(out)@) == announces_view(old(out)@).push(
                AnnounceView {
                    targets: addrs_of(self.users@),
                    id: crate::element::opt_str_view(id),
                    payload: PayloadView::Event(data@),
                },
            ),
    {
        let targets = self.all_addrs();
        out.push(Announce { targets, id, payload: Payload::Event(data) });
        proof {
            assert(announces_view(out@) =~= announces_view(old(out)@).push(
                AnnounceView {
                    targets: addrs_of(self.users@),
                    id: crate::element::opt_str_view(id),
                    payload: PayloadView::Event(data@),
                },
            ));
        }
    }

    /// Queues one event for the member at connection id `sender`, if they
    /// are in the room; otherwise queues nothing.
    pub fn respond_to_user(
        &self,
        sender: u64,
        data: AnnounceType,
        id: Option<String>,
        out: &mut Vec<Announce>,
    )
        ensures
            announces_view(final(out)@) == if self.has_addr(sender) {
                announces_view(old(out)@).push(
                    AnnounceView {
                        targets: seq![sender],
                        id: crate::element::opt_str_view(id),
                        payload: PayloadView::Event(data@),
                    },
                )
            } else {
                announces_view(old(out)@)
            },
    {
        match self.user_pos_from_addr(sender) {
            Some(i) => {
                proof {
                    assert(self.has_addr(sender));
                }
                let mut targets: Vec<u64> = Vec::new();
                targets.push(sender);
                out.push(Announce { targets, id, payload: Payload::Event(data) });
                proof {
                    assert(targets@ =~= seq![sender]);
                    assert(announces_view(out@) =~= announces_view(old(out)@).push(
                        AnnounceView {
                            targets: seq![sender],
                            id: crate::element::opt_str_view(id),
                            payload: PayloadView::Event(data@),
                        },
                    ));
                }
            },
            None => {},
        }
    }

    /// Queues `respond` for the sender (if present) and `announce` for
    /// everyone else in the room.
    pub fn respond_and_announce(
        &self,
        announce: AnnounceType,
        sender: u64,
        respond: AnnounceType,
        id: Option<String>,
        out: &mut Vec<Announce>,
    )
        ensures
            announces_view(final(out)@) == (if self.has_addr(sender) {
                announces_view(old(out)@).push(
                    AnnounceView {
                        targets: seq![sender],
                        id: crate::element::opt_str_view(id),
                        payload: PayloadView::Event(respond@),
                    },
                )
            } else {
                announces_view(old(out)@)
            }).push(
                AnnounceView {
                    targets: addrs_except(self.users@, sender),
                    id: Option::None,
                    payload: PayloadView::Event(announce@),
                },
            ),
    {
        self.respond_to_user(sender, respond, id, out);
        let ghost mid = announces_view(out@);
        let targets = self.all_addrs_except(sender);
        out.push(Announce { targets, id: Option::None, payload: Payload::Event(announce) });
        proof {
            assert(announces_view(out@) =~= mid.push(
                AnnounceView {
                    targets: addrs_except(self.users@, sender),
                    id: Option::None,
                    payload: PayloadView::Event(announce@),
                },
            ));
        }
    }

    /// Queues an error code echoing the client token, if the sender gave
    /// one and is in the room; otherwise drops the error silently.
    pub fn respond_error(
        &self,
        sender: u64,
        error: crate::commands::ErrorType,
        id: Option<String>,
        out: &mut Vec<Announce>,
    )
        ensures
            announces_view(final(out)@) == if id is Some && self.has_addr(sender) {
                announces_view(old(out)@).push(
                    AnnounceView {
                        targets: seq![sender],
                        id: crate::element::opt_str_view(id),
                        payload: PayloadView::Failure(error),
                    },
                )
            } else {
                announces_view(old(out)@)
            },
    {
        let has_id = match &id {
            Option::Some(_) => true,
            Option::None => false,
        };
        if !has_id {
            return;
        }
        match self.user_pos_from_addr(sender) {
            Some(_) => {
                proof {
                    assert(self.has_addr(sender));
                }
                let mut targets: Vec<u64> = Vec::new();
                targets.push(sender);
                out.push(Announce { targets, id, payload: Payload::Failure(error) });
                proof {
                    assert(targets@ =~= seq![sender]);
                    assert(announces_view(out@) =~= announces_view(old(out)@).push(
                        AnnounceView {
                            targets: seq![sender],
                            id: crate::element::opt_str_view(id),
                            payload: PayloadView::Failure(error),
                        },
                    ));
                }
            },
            None => {},
        }
    }
}


/// Another member (not `i`) currently holding `Admin` exists.
pub open spec fn has_other_admin(users: Seq<RoomUser>, i: int) -> bool {
    exists|j: int| 0 <= j < users.len() && j != i
        && (#[trigger] users[j]).access_level == AccessLevel::Admin
}

/// The position of the other admin (meaningful under `has_other_admin`).
pub open spec fn other_admin_index(users: Seq<RoomUser>, i: int) -> int {
    choose|j: int| 0 <= j < users.len() && j != i
        && (#[trigger] users[j]).access_level == AccessLevel::Admin
}

impl Room {
    /// Admits a member: tells the room `join`, seeds the member's canvas
    /// if it is new, appends the member to the roster, and tells the
    /// member alone `on_join` with the roster and their canvas.
    ///
    /// Admission keeps the room fully administered: the caller admits
    /// the newcomer as `Admin` exactly when the room has no admin.
    pub fn add_user(&mut self, user: RoomUser, out: &mut Vec<Announce>)
        requires
            old(self).wf(),
            !old(self).has_uuid(user.uuid),
            !old(self).has_addr(user.addr),
            (user.access_level == AccessLevel::Admin) <==> !old(self).has_admin_user(),
        ensures
            final(self).wf(),
            final(self).admined(),
            final(self).users@ == old(self).users@.push(user),
            final(self).name == old(self).name,
            final(self).config == old(self).config,
            (if old(self).has_canvas(user.canvas) {
                final(self).canvases == old(self).canvases
            } else {
                final(self).canvases@.len() == old(self).canvases@.len() + 1
                    && final(self).canvases@.subrange(0, old(self).canvases@.len() as int)
                        == old(self).canvases@
                    && final(self).canvases@.last().id == user.canvas
                    && is_seed_canvas(final(self).canvases@.last().canvas)
            }),
            final(self).has_canvas(user.canvas),
            announces_view(final(out)@) == announces_view(old(out)@) + seq![
                AnnounceView {
                    targets: addrs_of(old(self).users@),
                    id: Option::None,
                    payload: PayloadView::Event(
                        AnnounceTypeView::Join { user: public_view(user) },
                    ),
                },
                AnnounceView {
                    targets: seq![user.addr],
                    id: Option::None,
                    payload: PayloadView::Event(
                        AnnounceTypeView::OnJoin {
                            user: public_view(user),
                            users: final(self).users@.map_values(|u: RoomUser| public_view(u)),
                            elements: final(self).canvases@[final(self).canvas_index(
                                user.canvas,
                            )].canvas.elements@.map_values(|e: Element| e@),
                        },
                    ),
                },
            ],
    {
        let join_user = user.to_user();
        self.announce_to_all(AnnounceType::Join { user: join_user }, Option::None, out);
        let ghost mid_frames = announces_view(out@);
        let k = self.get_or_create_canvas(user.canvas);
        let elements = crate::element::clone_elements(&self.canvases[k].canvas.elements);
        let onjoin_user = user.to_user();
        let addr = user.addr;
        self.users.push(user);
        let mut users_list: Vec<User> = Vec::new();
        let mut i: usize = 0;
        while i < self.users.len()
            invariant
                i <= self.users@.len(),
                users_list@.len() == i,
                forall|j: int| 0 <= j < i
                    ==> users_list@[j]@ == public_view(#[trigger] self.users@[j]),
            decreases self.users@.len() - i,
        {
            users_list.push(self.users[i].to_user());
            i = i + 1;
        }
        let mut targets: Vec<u64> = Vec::new();
        targets.push(addr);
        let ann = Announce {
            targets,
            id: Option::None,
            payload: Payload::Event(
                AnnounceType::OnJoin { user: onjoin_user, users: users_list, elements },
            ),
        };
        let ghost annv = ann@;
        out.push(ann);
        proof {
            assert(announces_view(out@) =~= mid_frames.push(annv));
            let fusers = self.users@;
            assert(fusers =~= old(self).users@.push(user));
            assert(forall|j: int| 0 <= j < old(self).users@.len()
                ==> (#[trigger] old(self).users@[j]).uuid != user.uuid
                    && old(self).users@[j].addr != user.addr);
            if user.access_level == AccessLevel::Admin {
                assert(forall|j: int| 0 <= j < old(self).users@.len()
                    ==> (#[trigger] old(self).users@[j]).access_level != AccessLevel::Admin);
            }
            assert forall|k2: int, e: int|
                0 <= k2 < self.canvases@.len() && 0 <= e
                    < self.canvases@[k2].canvas.elements@.len() implies (match (
            #[trigger] self.canvases@[k2].canvas.elements@[e]).selected_by {
                Option::Some(u) => self.has_uuid(u),
                Option::None => true,
            }) by {
                if k2 < old(self).canvases@.len() {
                    assert(self.canvases@[k2] == old(self).canvases@[k2]);
                    match old(self).canvases@[k2].canvas.elements@[e].selected_by {
                        Option::Some(u) => {
                            assert(old(self).has_uuid(u));
                            let w = choose|w: int|
                                0 <= w < old(self).users@.len() && (#[trigger] old(self).users@[w]).uuid == u;
                            assert(self.users@[w].uuid == u);
                        },
                        Option::None => {},
                    }
                }
            }
            assert(self.admined()) by {
                if user.access_level == AccessLevel::Admin {
                    assert(self.users@[old(self).users@.len() as int].access_level
                        == AccessLevel::Admin);
                } else {
                    let w = choose|w: int|
                        0 <= w < old(self).users@.len() && (#[trigger] old(self).users@[w]).access_level == AccessLevel::Admin;
                    assert(self.users@[w].access_level == AccessLevel::Admin);
                }
            }
            assert(users_list@.map_values(|u: User| u@) =~= self.users@.map_values(
                |u: RoomUser| public_view(u),
            ));
            assert(targets@ =~= seq![user.addr]);
            assert(self.canvases_distinct());
            self.lemma_canvas_index_unique(user.canvas, k as int);
            assert(elements@.map_values(|e: Element| e@) == self.canvases@[self.canvas_index(
                user.canvas,
            )].canvas.elements@.map_values(|e: Element| e@));
            let f1 = AnnounceView {
                targets: addrs_of(old(self).users@),
                id: Option::None,
                payload: PayloadView::Event(AnnounceTypeView::Join { user: public_view(user) }),
            };
            let f2 = AnnounceView {
                targets: seq![user.addr],
                id: Option::None,
                payload: PayloadView::Event(
                    AnnounceTypeView::OnJoin {
                        user: public_view(user),
                        users: self.users@.map_values(|u: RoomUser| public_view(u)),
                        elements: self.canvases@[self.canvas_index(
                            user.canvas,
                        )].canvas.elements@.map_values(|e: Element| e@),
                    },
                ),
            };
            assert(mid_frames == announces_view(old(out)@).push(f1)) by {
                assert(addrs_of(old(self).users@) == addrs_of(old(self).users@));
                assert(join_user@ == public_view(user));
            }
            assert(annv =~~= f2);
            assert(announces_view(out@) =~~= announces_view(old(out)@) + seq![f1, f2]);
        }
    }

    /// The position of an admin other than the member at `i`, if any.
    fn find_other_admin(&self, i: usize) -> (r: Option<usize>)
        ensures
            match r {
                Some(o) => o < self.users@.len() && o as int != i as int
                    && self.users@[o as int].access_level == AccessLevel::Admin,
                None => forall|w: int| 0 <= w < self.users@.len() && w != i
                    ==> (#[trigger] self.users@[w]).access_level != AccessLevel::Admin,
            },
    {
        let mut j: usize = 0;
        while j < self.users.len()
            invariant
                j <= self.users@.len(),
                forall|w: int| 0 <= w < j && w != i
                    ==> (#[trigger] self.users@[w]).access_level != AccessLevel::Admin,
            decreases self.users@.len() - j,
        {
            if j != i && self.users[j].access_level == AccessLevel::Admin {
                return Some(j);
            }
            j = j + 1;
        }
        None
    }

    /// Sets a member's access level, clears their selections everywhere
    /// when they drop to `View`, announces the change, and demotes any
    /// other admin to `Edit` (with a second announcement) when the member
    /// rises to `Admin`. Returns whether the member was found.
    pub fn change_access_level(
        &mut self,
        user: u128,
        access_level: AccessLevel,
        out: &mut Vec<Announce>,
    ) -> (found: bool)
        requires
            old(self).wf(),
        ensures
            final(self).wf(),
            found == old(self).has_uuid(user),
            !found ==> *final(self) == *old(self) && *final(out) == *old(out),
            found ==> ({
                let i = old(self).uuid_index(user);
                let users1 = set_level(old(self).users@, i, access_level);
                let demote = access_level == AccessLevel::Admin && has_other_admin(
                    old(self).users@,
                    i,
                );
                let j = other_admin_index(old(self).users@, i);
                let users2 = if demote {
                    set_level(users1, j, AccessLevel::Edit)
                } else {
                    users1
                };
                &&& final(self).users@ == users2
                &&& final(self).name == old(self).name
                &&& final(self).config == old(self).config
                &&& final(self).canvases@.len() == old(self).canvases@.len()
                &&& (if access_level == AccessLevel::View {
                    forall|k: int| 0 <= k < old(self).canvases@.len()
                        ==> (#[trigger] final(self).canvases@[k]).id
                            == old(self).canvases@[k].id
                            && final(self).canvases@[k].canvas.elements@
                                == old(self).canvases@[k].canvas.elements@.map_values(
                                |e: Element| scrub_elem(e, user),
                            )
                } else {
                    final(self).canvases == old(self).canvases
                })
                &&& announces_view(final(out)@) == announces_view(old(out)@).push(
                    AnnounceView {
                        targets: addrs_of(old(self).users@),
                        id: Option::None,
                        payload: PayloadView::Event(
                            AnnounceTypeView::UserChange { user: public_view(users1[i]) },
                        ),
                    },
                ) + (if demote {
                    seq![
                        AnnounceView {
                            targets: addrs_of(old(self).users@),
                            id: Option::None,
                            payload: PayloadView::Event(
                                AnnounceTypeView::UserChange {
                                    user: public_view(users2[j]),
                                },
                            ),
                        },
                    ]
                } else {
                    Seq::<AnnounceView>::empty()
                })
            }),
            found && access_level == AccessLevel::View ==> (forall|k: int, e: int|
                0 <= k < final(self).canvases@.len() && 0 <= e
                    < final(self).canvases@[k].canvas.elements@.len()
                    ==> (#[trigger] final(self).canvases@[k].canvas.elements@[e]).selected_by
                        != Option::Some(user)),
            old(self).admined() && (access_level == AccessLevel::Admin || (old(self).has_uuid(
                user,
            ) ==> old(self).users@[old(self).uuid_index(user)].access_level
                != AccessLevel::Admin)) ==> final(self).admined(),
    {
        let pos = self.user_pos(user);
        match pos {
            None => false,
            Some(i) => {
                proof {
                    self.lemma_uuid_index_unique(user, i as int);
                }
                self.users[i].access_level = access_level;
                proof {
                    assert(self.users@ =~= set_level(old(self).users@, i as int, access_level));
                }
                let changed = self.users[i].to_user();
                if access_level == AccessLevel::View {
                    self.scrub_selections(user);
                }
                self.announce_to_all(AnnounceType::UserChange { user: changed }, Option::None, out);
                let ghost users1 = self.users@;
                let ghost mid_frames = announces_view(out@);
                proof {
                    assert(addrs_of(users1) =~= addrs_of(old(self).users@));
                }
                if access_level == AccessLevel::Admin {
                    match self.find_other_admin(i) {
                        Some(o) => {
                            self.users[o].access_level = AccessLevel::Edit;
                            let demoted = self.users[o].to_user();
                            self.announce_to_all(
                                AnnounceType::UserChange { user: demoted },
                                Option::None,
                                out,
                            );
                            proof {
                                assert(old(self).users@[o as int].access_level
                                    == AccessLevel::Admin);
                                assert(has_other_admin(old(self).users@, i as int));
                                let j = other_admin_index(old(self).users@, i as int);
                                assert(old(self).users@[j].access_level == AccessLevel::Admin
                                    && j != i as int);
                                assert(j == o as int) by {
                                    if j != o as int {
                                        if j < o as int {
                                            assert(!((#[trigger] old(self).users@[j]).access_level
                                                == AccessLevel::Admin && (#[trigger] old(self).users@[o as int]).access_level
                                                == AccessLevel::Admin));
                                        } else {
                                            assert(!((#[trigger] old(self).users@[o as int]).access_level == AccessLevel::Admin
                                                && (#[trigger] old(self).users@[j]).access_level
                                                == AccessLevel::Admin));
                                        }
                                    }
                                }
                                assert(self.users@ =~= set_level(
                                    users1,
                                    o as int,
                                    AccessLevel::Edit,
                                ));
                                self.lemma_change_wf(user, access_level, *old(self), i as int);
                                assert(addrs_of(self.users@) =~= addrs_of(old(self).users@));
                                let f2 = AnnounceView {
                                    targets: addrs_of(old(self).users@),
                                    id: Option::None,
                                    payload: PayloadView::Event(
                                        AnnounceTypeView::UserChange {
                                            user: public_view(self.users@[o as int]),
                                        },
                                    ),
                                };
                                assert(announces_view(out@) =~~= mid_frames.push(f2));
                                assert(announces_view(out@) =~~= mid_frames + seq![f2]);
                            }
                            true
                        },
                        None => {
                            proof {
                                assert(!has_other_admin(old(self).users@, i as int)) by {
                                    if has_other_admin(old(self).users@, i as int) {
                                        let j = other_admin_index(old(self).users@, i as int);
                                        assert(users1[j].access_level == AccessLevel::Admin);
                                    }
                                }
                                self.lemma_change_wf(user, access_level, *old(self), i as int);
                                assert(announces_view(out@) =~= mid_frames
                                    + Seq::<AnnounceView>::empty());
                            }
                            true
                        },
                    }
                } else {
                    proof {
                        self.lemma_change_wf(user, access_level, *old(self), i as int);
                        assert(announces_view(out@) =~= mid_frames
                            + Seq::<AnnounceView>::empty());
                        if access_level == AccessLevel::View {
                            assert forall|k: int, e: int|
                                0 <= k < self.canvases@.len() && 0 <= e
                                    < self.canvases@[k].canvas.elements@.len() implies (
                            #[trigger] self.canvases@[k].canvas.elements@[e]).selected_by
                                != Option::Some(user) by {
                                assert(self.canvases@[k].id == old(self).canvases@[k].id);
                                assert(self.canvases@[k].canvas.elements@
                                    == old(self).canvases@[k].canvas.elements@.map_values(
                                    |el: Element| scrub_elem(el, user),
                                ));
                                let pe = old(self).canvases@[k].canvas.elements@[e];
                                assert(self.canvases@[k].canvas.elements@[e] == scrub_elem(
                                    pe,
                                    user,
                                ));
                            }
                        }
                    }
                    true
                }
            },
        }
    }

    /// After a level change (and possible demotion of the other admin),
    /// the room is still well formed and suitably administered.
    proof fn lemma_change_wf(self, user: u128, access_level: AccessLevel, pre: Room, i: int)
        requires
            pre.wf(),
            0 <= i < pre.users@.len(),
            pre.users@[i].uuid == user,
            self.users@ == (if access_level == AccessLevel::Admin && has_other_admin(
                pre.users@,
                i,
            ) {
                set_level(
                    set_level(pre.users@, i, access_level),
                    other_admin_index(pre.users@, i),
                    AccessLevel::Edit,
                )
            } else {
                set_level(pre.users@, i, access_level)
            }),
            self.canvases@.len() == pre.canvases@.len(),
            forall|k: int| 0 <= k < pre.canvases@.len()
                ==> (#[trigger] self.canvases@[k]).id == pre.canvases@[k].id
                    && (self.canvases@[k].canvas.elements@ == pre.canvases@[k].canvas.elements@
                    || self.canvases@[k].canvas.elements@
                        == pre.canvases@[k].canvas.elements@.map_values(
                        |e: Element| scrub_elem(e, user),
                    )),
        ensures
            self.wf(),
            pre.admined() && (access_level == AccessLevel::Admin
                || pre.users@[i].access_level != AccessLevel::Admin) ==> self.admined(),
    {
        let demote = access_level == AccessLevel::Admin && has_other_admin(pre.users@, i);
        let j = other_admin_index(pre.users@, i);
        assert(self.users@.len() == pre.users@.len());
        assert(forall|w: int| 0 <= w < pre.users@.len()
            ==> (#[trigger] self.users@[w]).uuid == pre.users@[w].uuid
                && self.users@[w].addr == pre.users@[w].addr);
        assert(self.users_distinct());
        // at most one admin
        if access_level == AccessLevel::Admin {
            assert forall|w: int| 0 <= w < self.users@.len() && w != i implies (
            #[trigger] self.users@[w]).access_level != AccessLevel::Admin by {
                if self.users@[w].access_level == AccessLevel::Admin {
                    assert(pre.users@[w].access_level == AccessLevel::Admin);
                    assert(has_other_admin(pre.users@, i));
                    assert(pre.users@[j].access_level == AccessLevel::Admin && j != i);
                    if j != w {
                        if j < w {
                            assert(!((#[trigger] pre.users@[j]).access_level
                                == AccessLevel::Admin && (#[trigger] pre.users@[w]).access_level
                                == AccessLevel::Admin));
                        } else {
                            assert(!((#[trigger] pre.users@[w]).access_level
                                == AccessLevel::Admin && (#[trigger] pre.users@[j]).access_level
                                == AccessLevel::Admin));
                        }
                    }
                }
            }
            assert(self.at_most_one_admin());
            assert(self.users@[i].access_level == AccessLevel::Admin);
            assert(self.admined());
        } else {
            assert forall|a: int, b: int| 0 <= a < b < self.users@.len() implies !((
            #[trigger] self.users@[a]).access_level == AccessLevel::Admin && (
            #[trigger] self.users@[b]).access_level == AccessLevel::Admin) by {
                if self.users@[a].access_level == AccessLevel::Admin
                    && self.users@[b].access_level == AccessLevel::Admin {
                    assert(a != i && b != i);
                    assert(pre.users@[a].access_level == AccessLevel::Admin);
                    assert(pre.users@[b].access_level == AccessLevel::Admin);
                }
            }
            if pre.admined() && pre.users@[i].access_level != AccessLevel::Admin
                && pre.users@.len() >= 1 {
                let w = choose|w: int|
                    0 <= w < pre.users@.len() && (#[trigger] pre.users@[w]).access_level
                        == AccessLevel::Admin;
                assert(w != i);
                assert(self.users@[w].access_level == AccessLevel::Admin);
            }
        }
        // selections still point at members
        assert forall|k: int, e: int|
            0 <= k < self.canvases@.len() && 0 <= e
                < self.canvases@[k].canvas.elements@.len() implies (match (
        #[trigger] self.canvases@[k].canvas.elements@[e]).selected_by {
            Option::Some(u) => self.has_uuid(u),
            Option::None => true,
        }) by {
            let pre_els = pre.canvases@[k].canvas.elements@;
            let now = self.canvases@[k].canvas.elements@[e].selected_by;
            if self.canvases@[k].canvas.elements@ == pre_els {
                match now {
                    Option::Some(u) => {
                        assert(pre.has_uuid(u));
                        let w = choose|w: int|
                            0 <= w < pre.users@.len() && (#[trigger] pre.users@[w]).uuid == u;
                        assert(self.users@[w].uuid == u);
                    },
                    Option::None => {},
                }
            } else {
                assert(self.canvases@[k].canvas.elements@[e] == scrub_elem(
                    pre_els[e],
                    user,
                ));
                match now {
                    Option::Some(u) => {
                        assert(pre_els[e].selected_by == Option::Some(u));
                        assert(pre.has_uuid(u));
                        let w = choose|w: int|
                            0 <= w < pre.users@.len() && (#[trigger] pre.users@[w]).uuid == u;
                        assert(self.users@[w].uuid == u);
                    },
                    Option::None => {},
                }
            }
        }
    }
}



/// What removing the member at connection id `addr` does to a room and
/// to the delivery queue: the member leaves the roster, their selections
/// are cleared on every canvas, the rest of the room hears `disconnect`,
/// and if the admin left, the first editor (else the first member) is
/// promoted and announced.
pub open spec fn remove_user_post(
    pre: Room,
    addr: u64,
    post: Room,
    frames_pre: Seq<AnnounceView>,
    frames_post: Seq<AnnounceView>,
) -> bool {
    let i = pre.addr_index(addr);
    let removed = pre.users@[i];
    let rest = remove_at(pre.users@, i);
    &&& post.name == pre.name
    &&& post.config == pre.config
    &&& post.canvases@.len() == pre.canvases@.len()
    &&& (forall|k: int| 0 <= k < pre.canvases@.len()
        ==> (#[trigger] post.canvases@[k]).id == pre.canvases@[k].id
            && post.canvases@[k].canvas.elements@ == pre.canvases@[k].canvas.elements@.map_values(
            |e: Element| scrub_elem(e, removed.uuid),
        ))
    &&& (forall|k: int, e: int|
        0 <= k < post.canvases@.len() && 0 <= e < post.canvases@[k].canvas.elements@.len()
            ==> (#[trigger] post.canvases@[k].canvas.elements@[e]).selected_by
                != Option::Some(removed.uuid))
    &&& (if rest.len() == 0 {
        post.users@ == rest && frames_post == frames_pre
    } else {
        let disc = AnnounceView {
            targets: addrs_of(rest),
            id: Option::None,
            payload: PayloadView::Event(AnnounceTypeView::Disconnect { user: removed.uuid }),
        };
        if removed.access_level == AccessLevel::Admin {
            exists|e: int|
                #[trigger] is_elected(rest, e) && post.users@ == set_level(
                    rest,
                    e,
                    AccessLevel::Admin,
                ) && frames_post == frames_pre + seq![
                    disc,
                    AnnounceView {
                        targets: addrs_of(rest),
                        id: Option::None,
                        payload: PayloadView::Event(
                            AnnounceTypeView::UserChange {
                                user: public_view(set_level(rest, e, AccessLevel::Admin)[e]),
                            },
                        ),
                    },
                ]
        } else {
            post.users@ == rest && frames_post == frames_pre.push(disc)
        }
    })
}

impl Room {
    /// The member to promote when the admin leaves: the first editor,
    /// else the first member.
    fn find_elected(&self) -> (e: usize)
        requires
            self.users@.len() > 0,
        ensures
            e < self.users@.len(),
            is_elected(self.users@, e as int),
    {
        let mut j: usize = 0;
        while j < self.users.len()
            invariant
                j <= self.users@.len(),
                forall|w: int| 0 <= w < j
                    ==> (#[trigger] self.users@[w]).access_level != AccessLevel::Edit,
            decreases self.users@.len() - j,
        {
            if self.users[j].access_level == AccessLevel::Edit {
                return j;
            }
            j = j + 1;
        }
        0
    }

    /// Removes the member at connection id `addr`: drops them from the
    /// roster, clears their selections on every canvas, tells the rest
    /// of the room `disconnect`, and re-elects an admin if the admin
    /// left. Returns whether the member was found.
    pub fn remove_user(&mut self, addr: u64, out: &mut Vec<Announce>) -> (found: bool)
        requires
            old(self).wf(),
        ensures
            final(self).wf(),
            found == old(self).has_addr(addr),
            !found ==> *final(self) == *old(self) && *final(out) == *old(out),
            found ==> remove_user_post(
                *old(self),
                addr,
                *final(self),
                announces_view(old(out)@),
                announces_view(final(out)@),
            ),
            old(self).admined() ==> final(self).admined(),
    {
        let pos = self.user_pos_from_addr(addr);
        match pos {
            None => false,
            Some(i) => {
                proof {
                    self.lemma_addr_index_unique(addr, i as int);
                }
                let removed = self.users.remove(i);
                proof {
                    assert(self.users@ =~= remove_at(old(self).users@, i as int));
                    assert(forall|w: int| 0 <= w < self.users@.len()
                        ==> #[trigger] self.users@[w] == (if w < i {
                            old(self).users@[w]
                        } else {
                            old(self).users@[w + 1]
                        }));
                }
                self.scrub_selections(removed.uuid);
                proof {
                    let rest = self.users@;
                    assert forall|a: int, b: int| 0 <= a < b < rest.len() implies (
                    #[trigger] rest[a]).addr != (#[trigger] rest[b]).addr && rest[a].uuid
                        != rest[b].uuid && !(rest[a].access_level == AccessLevel::Admin
                        && rest[b].access_level == AccessLevel::Admin) by {
                        let a0 = if a < i { a } else { a + 1 };
                        let b0 = if b < i { b } else { b + 1 };
                        assert(rest[a] == old(self).users@[a0]);
                        assert(rest[b] == old(self).users@[b0]);
                    }
                    assert(self.users_distinct());
                    assert(self.at_most_one_admin());
                    assert forall|k: int, e: int|
                        0 <= k < self.canvases@.len() && 0 <= e
                            < self.canvases@[k].canvas.elements@.len() implies ({
                        &&& (match (#[trigger] self.canvases@[k].canvas.elements@[e]).selected_by {
                            Option::Some(u) => self.has_uuid(u),
                            Option::None => true,
                        })
                        &&& self.canvases@[k].canvas.elements@[e].selected_by != Option::Some(
                            removed.uuid,
                        )
                    }) by {
                        assert(self.canvases@[k].id == old(self).canvases@[k].id);
                        assert(self.canvases@[k].canvas.elements@
                            == old(self).canvases@[k].canvas.elements@.map_values(
                            |el: Element| scrub_elem(el, removed.uuid),
                        ));
                        let pe = old(self).canvases@[k].canvas.elements@[e];
                        assert(self.canvases@[k].canvas.elements@[e] == scrub_elem(
                            pe,
                            removed.uuid,
                        ));
                        match self.canvases@[k].canvas.elements@[e].selected_by {
                            Option::Some(u) => {
                                assert(pe.selected_by == Option::Some(u));
                                assert(u != removed.uuid);
                                assert(old(self).has_uuid(u));
                                let w = choose|w: int|
                                    0 <= w < old(self).users@.len() && (#[trigger] old(self).users@[w]).uuid == u;
                                assert(old(self).users@[i as int].uuid == removed.uuid);
                                assert(w != i);
                                if w < i {
                                    assert(self.users@[w].uuid == u);
                                } else {
                                    assert(self.users@[w - 1].uuid == u);
                                }
                            },
                            Option::None => {},
                        }
                    }
                    assert(self.selections_valid());
                }
                if self.users.len() == 0 {
                    return true;
                }
                self.announce_to_all(
                    AnnounceType::Disconnect { user: removed.uuid },
                    Option::None,
                    out,
                );
                let ghost mid = announces_view(out@);
                let ghost room1 = *self;
                let ghost rest = self.users@;
                let ghost disc = AnnounceView {
                    targets: addrs_of(rest),
                    id: Option::None,
                    payload: PayloadView::Event(
                        AnnounceTypeView::Disconnect { user: removed.uuid },
                    ),
                };
                proof {
                    assert(mid =~= announces_view(old(out)@).push(disc));
                }
                if removed.access_level == AccessLevel::Admin {
                    let e = self.find_elected();
                    let target = self.users[e].uuid;
                    proof {
                        room1.lemma_uuid_index_unique(target, e as int);
                        assert(!has_other_admin(rest, e as int)) by {
                            if has_other_admin(rest, e as int) {
                                let w = other_admin_index(rest, e as int);
                                let w0 = if w < i { w } else { w + 1 };
                                assert(rest[w] == old(self).users@[w0]);
                                assert(old(self).users@[i as int].access_level
                                    == AccessLevel::Admin);
                                assert(w0 != i);
                                if w0 < i {
                                    assert(!((#[trigger] old(self).users@[w0]).access_level
                                        == AccessLevel::Admin && (#[trigger] old(self).users@[i as int]).access_level == AccessLevel::Admin));
                                } else {
                                    assert(!((#[trigger] old(self).users@[i as int]).access_level
                                        == AccessLevel::Admin && (#[trigger] old(self).users@[w0]).access_level == AccessLevel::Admin));
                                }
                            }
                        }
                    }
                    let ok = self.change_access_level(target, AccessLevel::Admin, out);
                    proof {
                        assert(ok);
                        assert(self.users@ == set_level(rest, e as int, AccessLevel::Admin));
                        let f2 = AnnounceView {
                            targets: addrs_of(rest),
                            id: Option::None,
                            payload: PayloadView::Event(
                                AnnounceTypeView::UserChange {
                                    user: public_view(
                                        set_level(rest, e as int, AccessLevel::Admin)[e as int],
                                    ),
                                },
                            ),
                        };
                        assert(announces_view(out@) =~~= announces_view(old(out)@) + seq![
                            disc,
                            f2,
                        ]);
                        assert(is_elected(rest, e as int) && self.users@ == set_level(
                            rest,
                            e as int,
                            AccessLevel::Admin,
                        ));
                    }
                    true
                } else {
                    proof {
                        if old(self).admined() {
                            let w = choose|w: int|
                                0 <= w < old(self).users@.len() && (#[trigger] old(self).users@[w]).access_level == AccessLevel::Admin;
                            assert(w != i);
                            if w < i {
                                assert(self.users@[w].access_level == AccessLevel::Admin);
                            } else {
                                assert(self.users@[w - 1].access_level == AccessLevel::Admin);
                            }
                        }
                    }
                    true
                }
            },
        }
    }

    /// Moves the member at connection id `addr` to another canvas,
    /// seeding it if it is new, and clears the member's selections on
    /// that canvas. Returns `None` when no such member exists.
    pub fn switch_canvas(&mut self, addr: u64, canvas: u16) -> (r: Option<()>)
        requires
            old(self).wf(),
        ensures
            final(self).wf(),
            (r is Some) == old(self).has_addr(addr),
            r is None ==> *final(self) == *old(self),
            r is Some ==> ({
                let i = old(self).addr_index(addr);
                let moved = old(self).users@[i];
                &&& final(self).users@ == old(self).users@.update(
                    i,
                    RoomUser { canvas: canvas, ..old(self).users@[i] },
                )
                &&& final(self).name == old(self).name
                &&& final(self).config == old(self).config
                &&& final(self).has_canvas(canvas)
                &&& (if old(self).has_canvas(canvas) {
                    let k = old(self).canvas_index(canvas);
                    final(self).canvases@.len() == old(self).canvases@.len() && (forall|j: int|
                        0 <= j < old(self).canvases@.len() && j != k
                            ==> #[trigger] final(self).canvases@[j] == old(self).canvases@[j])
                        && final(self).canvases@[k].id == canvas
                        && final(self).canvases@[k].canvas.elements@
                            == old(self).canvases@[k].canvas.elements@.map_values(
                            |el: Element| scrub_elem(el, moved.uuid),
                        )
                } else {
                    final(self).canvases@.len() == old(self).canvases@.len() + 1
                        && final(self).canvases@.subrange(0, old(self).canvases@.len() as int)
                            == old(self).canvases@
                        && final(self).canvases@.last().id == canvas
                        && is_seed_canvas(final(self).canvases@.last().canvas)
                })
            }),
            old(self).admined() ==> final(self).admined(),
    {
        let pos = self.user_pos_from_addr(addr);
        match pos {
            None => None,
            Some(i) => {
                proof {
                    self.lemma_addr_index_unique(addr, i as int);
                }
                let uuid = self.users[i].uuid;
                self.users[i].canvas = canvas;
                proof {
                    assert(self.users@ =~= old(self).users@.update(
                        i as int,
                        RoomUser { canvas: canvas, ..old(self).users@[i as int] },
                    ));
                    assert(self.canvases_distinct());
                }
                let k = self.get_or_create_canvas(canvas);
                let ghost before_scrub = *self;
                self.scrub_canvas_at(k, uuid);
                proof {
                    if old(self).has_canvas(canvas) {
                        let k0 = choose|k0: int|
                            0 <= k0 < old(self).canvases@.len() && (#[trigger] old(self).canvases@[k0]).id == canvas;
                        old(self).lemma_canvas_index_unique(canvas, k0);
                        before_scrub.lemma_canvas_index_unique(canvas, k0);
                        assert(k as int == k0);
                    } else {
                        assert(final(self).canvases@.subrange(
                            0,
                            old(self).canvases@.len() as int,
                        ) =~= old(self).canvases@);
                        assert(is_seed_canvas(before_scrub.canvases@[k as int].canvas));
                        let seed = before_scrub.canvases@[k as int].canvas.elements@;
                        assert(self.canvases@[k as int].canvas.elements@ =~= seed) by {
                            assert(self.canvases@[k as int].canvas.elements@ == seed.map_values(
                                |el: Element| scrub_elem(el, uuid),
                            ));
                            assert(seed.map_values(|el: Element| scrub_elem(el, uuid))[0]
                                == scrub_elem(seed[0], uuid));
                            assert(seed[0].selected_by is None);
                        }
                    }
                    // membership and admin facts carry over index by index
                    assert forall|w: int| 0 <= w < self.users@.len() implies (
                    #[trigger] self.users@[w]).uuid == old(self).users@[w].uuid
                        && self.users@[w].addr == old(self).users@[w].addr
                        && self.users@[w].access_level == old(self).users@[w].access_level by {}
                    assert(self.users_distinct());
                    assert(self.at_most_one_admin());
                    if old(self).admined() && self.users@.len() >= 1 {
                        let w = choose|w: int|
                            0 <= w < old(self).users@.len() && (#[trigger] old(self).users@[w]).access_level == AccessLevel::Admin;
                        assert(self.users@[w].access_level == AccessLevel::Admin);
                    }
                    assert forall|k2: int, e: int|
                        0 <= k2 < self.canvases@.len() && 0 <= e
                            < self.canvases@[k2].canvas.elements@.len() implies (match (
                    #[trigger] self.canvases@[k2].canvas.elements@[e]).selected_by {
                        Option::Some(u) => self.has_uuid(u),
                        Option::None => true,
                    }) by {
                        let bels = before_scrub.canvases@[k2].canvas.elements@;
                        if k2 != k as int {
                            assert(self.canvases@[k2] == before_scrub.canvases@[k2]);
                        } else {
                            assert(self.canvases@[k2].canvas.elements@ == bels.map_values(
                                |el: Element| scrub_elem(el, uuid),
                            ));
                        }
                        match self.canvases@[k2].canvas.elements@[e].selected_by {
                            Option::Some(u) => {
                                assert(bels[e].selected_by == Option::Some(u));
                                if k2 < old(self).canvases@.len() {
                                    assert(before_scrub.canvases@[k2] == old(self).canvases@[k2]);
                                    assert(old(self).has_uuid(u));
                                    let w = choose|w: int|
                                        0 <= w < old(self).users@.len() && (#[trigger] old(self).users@[w]).uuid == u;
                                    assert(self.users@[w].uuid == u);
                                } else {
                                    assert(is_seed_canvas(before_scrub.canvases@[k2].canvas));
                                    assert(bels[e].selected_by is None);
                                }
                            },
                            Option::None => {},
                        }
                    }
                }
                Some(())
            },
        }
    }
}


impl Room {
    /// The deliveries that a handler's instruction produces: who hears
    /// what, with the sender's token echoed only on direct responses and
    /// on errors.
    pub open spec fn announce_frames(
        self,
        announcement: Result<AnnounceTo, crate::commands::ErrorType>,
        sender: u64,
        id: Option<Seq<char>>,
    ) -> Seq<AnnounceView> {
        match announcement {
            Result::Ok(AnnounceTo::All(t)) => seq![
                AnnounceView {
                    targets: addrs_of(self.users@),
                    id: id,
                    payload: PayloadView::Event(t@),
                },
            ],
            Result::Ok(AnnounceTo::Respond(t)) => if self.has_addr(sender) {
                seq![
                    AnnounceView {
                        targets: seq![sender],
                        id: id,
                        payload: PayloadView::Event(t@),
                    },
                ]
            } else {
                Seq::empty()
            },
            Result::Ok(AnnounceTo::ResponseAndAnnounce { respond, announce }) => (
            if self.has_addr(sender) {
                seq![
                    AnnounceView {
                        targets: seq![sender],
                        id: id,
                        payload: PayloadView::Event(respond@),
                    },
                ]
            } else {
                Seq::empty()
            }) + seq![
                AnnounceView {
                    targets: addrs_except(self.users@, sender),
                    id: Option::None,
                    payload: PayloadView::Event(announce@),
                },
            ],
            Result::Ok(AnnounceTo::ResponseAndAnnounceToCanvas { respond, announce, canvas }) => (
            if self.has_addr(sender) {
                seq![
                    AnnounceView {
                        targets: seq![sender],
                        id: id,
                        payload: PayloadView::Event(respond@),
                    },
                ]
            } else {
                Seq::empty()
            }) + seq![
                AnnounceView {
                    targets: addrs_on_canvas_except(self.users@, canvas, sender),
                    id: Option::None,
                    payload: PayloadView::Event(announce@),
                },
            ],
            Result::Ok(AnnounceTo::Silent) => Seq::empty(),
            Result::Err(e) => if id is Some && self.has_addr(sender) {
                seq![
                    AnnounceView {
                        targets: seq![sender],
                        id: id,
                        payload: PayloadView::Failure(e),
                    },
                ]
            } else {
                Seq::empty()
            },
        }
    }

    /// Delivers a handler's instruction: a broadcast, a response, a
    /// response with a broadcast to the rest of the room or canvas,
    /// nothing, or an error echoed to the sender.
    pub fn announce(
        &self,
        announcement: Result<AnnounceTo, crate::commands::ErrorType>,
        sender: u64,
        id: Option<String>,
        out: &mut Vec<Announce>,
    )
        ensures
            announces_view(final(out)@) == announces_view(old(out)@) + self.announce_frames(
                announcement,
                sender,
                crate::element::opt_str_view(id),
            ),
    {
        let ghost pre = announces_view(out@);
        let ghost frames = self.announce_frames(announcement, sender, crate::element::opt_str_view(id));
        match announcement {
            Result::Ok(AnnounceTo::All(t)) => {
                self.announce_to_all(t, id, out);
                proof {
                    assert(announces_view(out@) =~= pre + frames);
                }
            },
            Result::Ok(AnnounceTo::Respond(t)) => {
                self.respond_to_user(sender, t, id, out);
                proof {
                    assert(announces_view(out@) =~= pre + frames);
                }
            },
            Result::Ok(AnnounceTo::ResponseAndAnnounce { respond, announce }) => {
                self.respond_and_announce(announce, sender, respond, id, out);
                proof {
                    assert(announces_view(out@) =~= pre + frames);
                }
            },
            Result::Ok(AnnounceTo::ResponseAndAnnounceToCanvas { respond, announce, canvas }) => {
                self.respond_to_user(sender, respond, id, out);
                let ghost mid = announces_view(out@);
                let targets = self.all_addrs_on_canvas_except(canvas, sender);
                out.push(
                    Announce { targets, id: Option::None, payload: Payload::Event(announce) },
                );
                proof {
                    assert(announces_view(out@) =~= mid.push(
                        AnnounceView {
                            targets: addrs_on_canvas_except(self.users@, canvas, sender),
                            id: Option::None,
                            payload: PayloadView::Event(announce@),
                        },
                    ));
                    assert(announces_view(out@) =~= pre + frames);
                }
            },
            Result::Ok(AnnounceTo::Silent) => {
                proof {
                    assert(announces_view(out@) =~= pre + frames);
                }
            },
            Result::Err(error) => {
                self.respond_error(sender, error, id, out);
                proof {
                    assert(announces_view(out@) =~= pre + frames);
                }
            },
        }
    }

    /// Invoked when the room is destroyed. Persistence is a hook at this
    /// seam: the room state is discarded when the last member leaves, so
    /// this deliberately stores nothing.
    pub fn save_to_file(&self) {
    }
}

/// One room of the registry together with its name.
pub struct RoomEntry {
    pub name: String,
    pub room: Room,
}

/// The process-wide registry: every live room, by name.
pub struct App {
    pub rooms: Vec<RoomEntry>,
}

impl App {
    /// Some room has this name.
    pub open spec fn has_room(self, n: Seq<char>) -> bool {
        exists|k: int| 0 <= k < self.rooms@.len() && (#[trigger] self.rooms@[k]).name@ == n
    }

    /// The position of the room with this name.
    pub open spec fn room_index(self, n: Seq<char>) -> int {
        choose|k: int| 0 <= k < self.rooms@.len() && (#[trigger] self.rooms@[k]).name@ == n
    }

    /// Room names are unique and every room is well formed.
    pub open spec fn wf(self) -> bool {
        &&& forall|i: int, j: int| 0 <= i < j < self.rooms@.len()
            ==> (#[trigger] self.rooms@[i]).name@ != (#[trigger] self.rooms@[j]).name@
        &&& forall|k: int| 0 <= k < self.rooms@.len() ==> (#[trigger] self.rooms@[k]).room.wf()
    }

    /// Every live room has an admin.
    pub open spec fn admined_all(self) -> bool {
        forall|k: int| 0 <= k < self.rooms@.len() ==> (#[trigger] self.rooms@[k]).room.admined()
    }

    /// A fresh registry with no rooms.
    pub fn new() -> (r: App)
        ensures
            r.rooms@ == Seq::<RoomEntry>::empty(),
            r.wf(),
            r.admined_all(),
    {
        let r = App { rooms: Vec::new() };
        proof {
            assert(r.rooms@ =~= Seq::<RoomEntry>::empty());
        }
        r
    }

    /// Under unique names, any position holding `name` is the room
    /// index.
    pub proof fn lemma_room_index_unique(self, n: Seq<char>, k: int)
        requires
            self.wf(),
            0 <= k < self.rooms@.len(),
            self.rooms@[k].name@ == n,
        ensures
            self.room_index(n) == k,
            self.has_room(n),
    {
        assert(self.has_room(n));
        let k2 = self.room_index(n);
        if k2 != k {
            if k < k2 {
                assert(self.rooms@[k].name@ != self.rooms@[k2].name@);
            } else {
                assert(self.rooms@[k2].name@ != self.rooms@[k].name@);
            }
        }
    }

    /// The position of the room with this name, if it exists.
    pub fn room_pos(&self, name: &str) -> (r: Option<usize>)
        ensures
            match r {
                Some(k) => k < self.rooms@.len() && self.rooms@[k as int].name@ == name@,
                None => !self.has_room(name@),
            },
    {
        let mut k: usize = 0;
        while k < self.rooms.len()
            invariant
                k <= self.rooms@.len(),
                forall|j: int| 0 <= j < k ==> (#[trigger] self.rooms@[j]).name@ != name@,
            decreases self.rooms@.len() - k,
        {
            if str_eq(self.rooms[k].name.as_str(), name) {
                return Some(k);
            }
            k = k + 1;
        }
        None
    }

    /// The room with this name, if it exists.
    pub fn get_room(&self, name: &str) -> (r: Option<&Room>)
        ensures
            match r {
                Some(room) => self.has_room(name@) && exists|k: int|
                    0 <= k < self.rooms@.len() && (#[trigger] self.rooms@[k]).name@ == name@
                        && self.rooms@[k].room == *room,
                None => !self.has_room(name@),
            },
    {
        match self.room_pos(name) {
            Some(k) => {
                proof {
                    assert(self.has_room(name@));
                }
                Some(&self.rooms[k].room)
            },
            None => None,
        }
    }

    /// The position of the room with this name, creating the room (with
    /// the given password, from the client that brings it into being)
    /// when it does not exist yet.
    pub fn get_or_insert_room(&mut self, name: &str, password: Option<String>) -> (k: usize)
        requires
            old(self).wf(),
        ensures
            final(self).wf(),
            old(self).admined_all() ==> final(self).admined_all(),
            k < final(self).rooms@.len(),
            final(self).rooms@[k as int].name@ == name@,
            final(self).room_index(name@) == k as int,
            final(self).has_room(name@),
            if old(self).has_room(name@) {
                *final(self) == *old(self)
            } else {
                final(self).rooms@.len() == old(self).rooms@.len() + 1
                    && final(self).rooms@.subrange(0, old(self).rooms@.len() as int)
                        == old(self).rooms@
                    && k as int == old(self).rooms@.len()
                    && final(self).rooms@.last().room.users@ == Seq::<RoomUser>::empty()
                    && final(self).rooms@.last().room.canvases@ == Seq::<CanvasEntry>::empty()
                    && final(self).rooms@.last().room.config.password == password
                    && final(self).rooms@.last().room.config.new_users_default_editor == false
            },
    {
        match self.room_pos(name) {
            Some(k) => {
                proof {
                    self.lemma_room_index_unique(name@, k as int);
                }
                k
            },
            None => {
                let k = self.rooms.len();
                let mut room_name = String::new();
                room_name.append(name);
                proof {
                    assert(room_name@ =~= name@);
                }
                let entry = RoomEntry { name: room_name, room: Room::new(
                    {
                        let mut n2 = String::new();
                        n2.append(name);
                        n2
                    },
                    password,
                ) };
                self.rooms.push(entry);
                proof {
                    assert(final(self).rooms@.subrange(0, old(self).rooms@.len() as int)
                        =~= old(self).rooms@);
                    assert(forall|j: int| 0 <= j < old(self).rooms@.len()
                        ==> (#[trigger] old(self).rooms@[j]).name@ != name@);
                    self.lemma_room_index_unique(name@, k as int);
                }
                k
            },
        }
    }

    /// Disconnects the member at connection id `addr` from the named
    /// room; when the room becomes empty, its state is offered to the
    /// persistence hook and the room is dropped. Returns whether a
    /// member was removed.
    pub fn disconnect_user(
        &mut self,
        room_name: &str,
        addr: u64,
        out: &mut Vec<Announce>,
    ) -> (found: bool)
        requires
            old(self).wf(),
        ensures
            final(self).wf(),
            old(self).admined_all() ==> final(self).admined_all(),
            !old(self).has_room(room_name@) ==> !found && *final(self) == *old(self)
                && *final(out) == *old(out),
            old(self).has_room(room_name@) ==> ({
                let k = old(self).room_index(room_name@);
                let room0 = old(self).rooms@[k].room;
                &&& found == room0.has_addr(addr)
                &&& (!found ==> final(self).rooms@ == old(self).rooms@ && *final(out) == *old(out))
                &&& (found ==> ({
                    let i = room0.addr_index(addr);
                    let rest = remove_at(room0.users@, i);
                    if rest.len() == 0 {
                        final(self).rooms@ == remove_at(old(self).rooms@, k) && announces_view(
                            final(out)@,
                        ) == announces_view(old(out)@)
                    } else {
                        final(self).rooms@.len() == old(self).rooms@.len() && (forall|j: int|
                            0 <= j < old(self).rooms@.len() && j != k
                                ==> #[trigger] final(self).rooms@[j] == old(self).rooms@[j])
                            && final(self).rooms@[k].name@ == room_name@
                            && remove_user_post(
                            room0,
                            addr,
                            final(self).rooms@[k].room,
                            announces_view(old(out)@),
                            announces_view(final(out)@),
                        )
                    }
                }))
            }),
    {
        let pos = self.room_pos(room_name);
        match pos {
            None => false,
            Some(k) => {
                proof {
                    self.lemma_room_index_unique(room_name@, k as int);
                }
                let removed_user = self.rooms[k].room.remove_user(addr, out);
                if !removed_user {
                    proof {
                        assert(self.rooms@ =~= old(self).rooms@);
                    }
                    return false;
                }
                if self.rooms[k].room.users.len() == 0 {
                    self.rooms[k].room.save_to_file();
                    self.rooms.remove(k);
                    proof {
                        assert(self.rooms@ =~= remove_at(old(self).rooms@, k as int));
                        assert forall|a: int, b: int| 0 <= a < b < self.rooms@.len() implies (
                        #[trigger] self.rooms@[a]).name@ != (#[trigger] self.rooms@[b]).name@ by {
                            let a0 = if a < k { a } else { a + 1 };
                            let b0 = if b < k { b } else { b + 1 };
                            assert(self.rooms@[a] == old(self).rooms@[a0]);
                            assert(self.rooms@[b] == old(self).rooms@[b0]);
                        }
                        assert forall|j: int| 0 <= j < self.rooms@.len() implies (
                        #[trigger] self.rooms@[j]).room.wf() && (old(self).admined_all()
                            ==> self.rooms@[j].room.admined()) by {
                            let j0 = if j < k { j } else { j + 1 };
                            assert(self.rooms@[j] == old(self).rooms@[j0]);
                        }
                    }
                } else {
                    proof {
                        assert forall|j: int| 0 <= j < self.rooms@.len() implies (
                        #[trigger] self.rooms@[j]).room.wf() && (old(self).admined_all()
                            ==> self.rooms@[j].room.admined()) by {
                            if j != k {
                                assert(self.rooms@[j] == old(self).rooms@[j]);
                            }
                        }
                    }
                }
                true
            },
        }
    }
}

/// A live well-formed room has exactly one admin: someone holds
/// `Admin`, and no two members do. Admission elects the first member
/// admin, a level change demotes any second admin, and removal of the
/// admin promotes a successor, so every operation of this module keeps
/// this; the one stated exception is an admin demoting themself.
pub proof fn lemma_live_room_has_one_admin(room: Room)
    requires
        room.wf(),
        room.admined(),
        room.users@.len() >= 1,
    ensures
        exists|i: int|
            0 <= i < room.users@.len() && (#[trigger] room.users@[i]).access_level
                == AccessLevel::Admin,
        forall|i: int, j: int|
            0 <= i < room.users@.len() && 0 <= j < room.users@.len() && (
            #[trigger] room.users@[i]).access_level == AccessLevel::Admin && (
            #[trigger] room.users@[j]).access_level == AccessLevel::Admin ==> i == j,
{
    assert(room.has_admin_user());
    assert forall|i: int, j: int|
        0 <= i < room.users@.len() && 0 <= j < room.users@.len() && (
        #[trigger] room.users@[i]).access_level == AccessLevel::Admin && (
        #[trigger] room.users@[j]).access_level == AccessLevel::Admin implies i == j by {
        if i < j {
            assert(!(room.users@[i].access_level == AccessLevel::Admin
                && room.users@[j].access_level == AccessLevel::Admin));
        } else if j < i {
            assert(!(room.users@[j].access_level == AccessLevel::Admin
                && room.users@[i].access_level == AccessLevel::Admin));
        }
    }
}

/// Whether two strings hold the same characters.
pub fn str_eq(a: &str, b: &str) -> (r: bool)
    ensures
        r == (a@ == b@),
{
    let na = a.unicode_len();
    let nb = b.unicode_len();
    if na != nb {
        return false;
    }
    let mut i: usize = 0;
    while i < na
        invariant
            i <= na,
            na == a@.len(),
            na == b@.len(),
            forall|j: int| 0 <= j < i ==> a@[j] == b@[j],
        decreases na - i,
    {
        if a.get_char(i) != b.get_char(i) {
            return false;
        }
        i = i + 1;
    }
    proof {
        assert(a@ =~= b@);
    }
    true
}

} // verus!
