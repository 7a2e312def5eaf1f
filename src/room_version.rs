//! The per-room protocol profile.

use vstd::prelude::*;

verus! {

/// Whether a known room version stores power levels as strict integers;
/// `None` for a version the protocol library does not know.
pub uninterp spec fn version_integer_power_levels(id: Seq<char>) -> Option<bool>;

/// Relies on ruma's `RoomVersionId` parsing and `RoomVersionId::rules`: the
/// `integer_power_levels` authorization rule of a known version.
#[verifier::external_body]
fn integer_power_levels_rule(id: &str) -> (r: Option<bool>)
    ensures
        r == version_integer_power_levels(id@),
{
    ruma::RoomVersionId::try_from(id).ok()?.rules().map(|r| r.authorization.integer_power_levels)
}

/// A room's version: its id and the power-level encoding it selects, which
/// always agree.
pub struct RoomVersion {
    id: String,
    integer_power_levels: bool,
}

impl RoomVersion {
    #[verifier::type_invariant]
    spec fn consistent(&self) -> bool {
        version_integer_power_levels(self.id@) == Some(self.integer_power_levels)
    }

    /// The version id.
    pub closed spec fn id_view(&self) -> Seq<char> {
        self.id@
    }

    /// Whether power levels must be strict integers.
    pub closed spec fn integer_only(&self) -> bool {
        self.integer_power_levels
    }

    /// The profile of a known room version; `None` for an unknown one.
    pub fn from_id(id: &str) -> (r: Option<RoomVersion>)
        ensures
            match r {
                Some(v) => v.id_view() == id@ && version_integer_power_levels(id@) == Some(v.integer_only()),
                None => version_integer_power_levels(id@).is_none(),
            },
    {
        match integer_power_levels_rule(id) {
            Some(b) => Some(RoomVersion { id: id.to_owned(), integer_power_levels: b }),
            None => None,
        }
    }

    pub fn id(&self) -> (r: &String)
        ensures
            r@ == self.id_view(),
    {
        &self.id
    }

    pub fn integer_power_levels(&self) -> (r: bool)
        ensures
            r == self.integer_only(),
            version_integer_power_levels(self.id_view()) == Some(r),
    {
        proof {
            use_type_invariant(self);
        }
        self.integer_power_levels
    }
}

} // verus!
