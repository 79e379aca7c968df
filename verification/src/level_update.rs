use vstd::prelude::*;
use vstd::std_specs::convert::FromSpec;

verus! {

/// What one validator tells another of the contributions it has gathered at
/// one level of the aggregation tree, with the validator it comes from.
#[derive(Clone, Debug, PartialEq, Eq)]
pub struct LevelUpdate<C> {
    /// All the contributions of the level in one.
    pub aggregate: C,
    /// The sender's own contribution, where it sends one.
    pub individual: Option<C>,
    /// The level that the update is for.
    pub level: u8,
    /// The validator that the update comes from.
    pub origin: u16,
}

/// A level update as it is sent: without its origin, which the message
/// around it names already.
#[derive(Clone, Debug, PartialEq, Eq)]
pub struct SerializableLevelUpdate<C> {
    pub aggregate: C,
    pub individual: Option<C>,
    pub level: u8,
}

impl<C> SerializableLevelUpdate<C> {
    /// The level update that this is the sent form of, as coming from `origin`.
    pub open spec fn spec_into_level_update(self, origin: u16) -> LevelUpdate<C> {
        LevelUpdate {
            aggregate: self.aggregate,
            individual: self.individual,
            level: self.level,
            origin,
        }
    }

    /// Given an origin, the level update that this is the sent form of.
    pub fn into_level_update(self, origin: u16) -> (update: LevelUpdate<C>)
        ensures
            update == self.spec_into_level_update(origin),
    {
        LevelUpdate {
            aggregate: self.aggregate,
            individual: self.individual,
            level: self.level,
            origin,
        }
    }

    /// Sending loses nothing but the origin: an update that is put into its
    /// sent form and given back its origin is the update that it was, and a
    /// sent form that is given an origin and sent again is the same sent form.
    pub proof fn lemma_round_trip(self, update: LevelUpdate<C>, origin: u16)
        ensures
            Self::from_spec(update).spec_into_level_update(update.origin) == update,
            Self::from_spec(self.spec_into_level_update(origin)) == self,
    {
    }
}

impl<C> From<LevelUpdate<C>> for SerializableLevelUpdate<C> {
    fn from(value: LevelUpdate<C>) -> (sent: Self) {
        SerializableLevelUpdate {
            aggregate: value.aggregate,
            individual: value.individual,
            level: value.level,
        }
    }
}

impl<C> vstd::std_specs::convert::FromSpecImpl<LevelUpdate<C>> for SerializableLevelUpdate<C> {
    open spec fn obeys_from_spec() -> bool {
        true
    }

    open spec fn from_spec(value: LevelUpdate<C>) -> Self {
        SerializableLevelUpdate {
            aggregate: value.aggregate,
            individual: value.individual,
            level: value.level,
        }
    }
}

} // verus!
