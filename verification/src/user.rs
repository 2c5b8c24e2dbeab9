//! Users: access levels and the wire-facing roster entry.

use vstd::prelude::*;
use crate::color::{clone_string, Color};

verus! {

/// A user's authority in a room, totally ordered: `View < Edit < Admin`.
#[derive(Clone, Copy, Debug, PartialEq, Eq, Structural)]
pub enum AccessLevel {
    View,
    Edit,
    Admin,
}

impl Default for AccessLevel {
    fn default() -> (r: Self)
        ensures
            r == AccessLevel::View,
    {
        AccessLevel::View
    }
}

impl AccessLevel {
    /// The lowercase wire tag of this level.
    pub open spec fn tag(self) -> Seq<char> {
        match self {
            AccessLevel::View => seq!['v', 'i', 'e', 'w'],
            AccessLevel::Edit => seq!['e', 'd', 'i', 't'],
            AccessLevel::Admin => seq!['a', 'd', 'm', 'i', 'n'],
        }
    }

    /// The lowercase wire tag of this level.
    pub fn as_str(&self) -> (r: &'static str)
        ensures
            r@ == self.tag(),
    {
        match self {
            AccessLevel::View => {
                let r = "view";
                proof {
                    reveal_strlit("view");
                    assert(r@ =~= self.tag());
                }
                r
            },
            AccessLevel::Edit => {
                let r = "edit";
                proof {
                    reveal_strlit("edit");
                    assert(r@ =~= self.tag());
                }
                r
            },
            AccessLevel::Admin => {
                let r = "admin";
                proof {
                    reveal_strlit("admin");
                    assert(r@ =~= self.tag());
                }
                r
            },
        }
    }

    /// Whether this level allows changing elements and selections.
    pub open spec fn can_edit(self) -> bool {
        self != AccessLevel::View
    }
}

/// The mathematical value of a roster entry.
#[verifier::ext_equal]
pub struct UserView {
    pub color: Seq<char>,
    pub username: Seq<char>,
    pub canvas: u16,
    pub uuid: u128,
    pub access_level: AccessLevel,
}

/// A user as the wire sees it: the public part of a room member.
pub struct User {
    pub color: Color,
    pub username: String,
    pub canvas: u16,
    pub uuid: u128,
    pub access_level: AccessLevel,
}

impl View for User {
    type V = UserView;

    open spec fn view(&self) -> UserView {
        UserView {
            color: self.color@,
            username: self.username@,
            canvas: self.canvas,
            uuid: self.uuid,
            access_level: self.access_level,
        }
    }
}

impl Clone for User {
    fn clone(&self) -> (r: Self)
        ensures
            r@ == self@,
    {
        let r = User {
            color: self.color.clone(),
            username: clone_string(&self.username),
            canvas: self.canvas,
            uuid: self.uuid,
            access_level: self.access_level,
        };
        proof {
            assert(r@ =~= self@);
        }
        r
    }
}

} // verus!
