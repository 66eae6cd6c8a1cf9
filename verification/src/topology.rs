//! Partition authority values: Headers, durable states, and their families.

use vstd::prelude::*;

use crate::api::error::{plain_error, Error, ErrorKind, Result};
use crate::api::identifiers::PartitionKey;

verus! {

/// The durable state discriminator of one partition.
#[derive(Clone, Copy, Debug, PartialEq, Eq, Structural)]
pub enum PartitionState {
    /// Stable; may begin a split or a merge.
    Ready,
    /// A split source that still holds its complete entry set.
    Splitting,
    /// A split target that is filling.
    ReceivingSplit,
    /// A split source whose entries are leaving for its two targets.
    DrainingSplit,
    /// A merge source whose entries are leaving for reselected targets.
    Merging,
}

impl PartitionState {
    /// Whether a leaf in this state accepts foreground writes.
    pub open spec fn writable(self) -> bool {
        self == PartitionState::Ready || self == PartitionState::Splitting || self
            == PartitionState::ReceivingSplit
    }

    /// Returns whether a leaf in this state accepts foreground writes.
    pub fn accepts_writes(self) -> (res: bool)
        ensures
            res == self.writable(),
    {
        matches!(
            self,
            PartitionState::Ready | PartitionState::Splitting | PartitionState::ReceivingSplit
        )
    }
}

/// The authoritative Header of one partition.
#[derive(Clone, Copy, Debug, PartialEq, Eq, Structural)]
pub struct PartitionHeader {
    /// The tree level; leaves are at level one.
    pub level: u32,
    /// The exact number of entries.
    pub entry_count: u32,
    /// The body epoch.
    pub epoch: u64,
    /// The durable state discriminator.
    pub state: PartitionState,
}

impl PartitionHeader {
    /// Accepts a Header at a positive level.
    pub fn new(level: u32, entry_count: u32, epoch: u64, state: PartitionState) -> (res: Result<
        Self,
    >)
        ensures
            match res {
                Ok(header) => level > 0 && header == (PartitionHeader {
                    level,
                    entry_count,
                    epoch,
                    state,
                }),
                Err(error) => level == 0 && error == plain_error(ErrorKind::InvalidArgument),
            },
    {
        if level == 0 {
            return Err(Error::invalid_argument());
        }
        Ok(PartitionHeader { level, entry_count, epoch, state })
    }
}

/// The durable transition of one partition: its state with what the state
/// refers to and when it started.
#[derive(Clone, Copy, Debug, PartialEq, Eq, Structural)]
pub enum PartitionTransition {
    /// Stable.
    Ready {
        /// When the state started.
        started_at_unix_millis: u64,
    },
    /// A split source with its reserved targets.
    Splitting {
        /// The reserved left target.
        left: PartitionKey,
        /// The reserved right target.
        right: PartitionKey,
        /// When the state started.
        started_at_unix_millis: u64,
    },
    /// A split target with its source.
    ReceivingSplit {
        /// The split source.
        source: PartitionKey,
        /// When the state started.
        started_at_unix_millis: u64,
    },
    /// A draining split source with its published targets.
    DrainingSplit {
        /// The left target.
        left: PartitionKey,
        /// The right target.
        right: PartitionKey,
        /// When the state started.
        started_at_unix_millis: u64,
    },
    /// A merge source.
    Merging {
        /// When the state started.
        started_at_unix_millis: u64,
    },
}

impl PartitionTransition {
    /// The state discriminator.
    pub open spec fn spec_state(self) -> PartitionState {
        match self {
            PartitionTransition::Ready { .. } => PartitionState::Ready,
            PartitionTransition::Splitting { .. } => PartitionState::Splitting,
            PartitionTransition::ReceivingSplit { .. } => PartitionState::ReceivingSplit,
            PartitionTransition::DrainingSplit { .. } => PartitionState::DrainingSplit,
            PartitionTransition::Merging { .. } => PartitionState::Merging,
        }
    }

    /// Returns the state discriminator.
    pub fn state(self) -> (res: PartitionState)
        ensures
            res == self.spec_state(),
    {
        match self {
            PartitionTransition::Ready { .. } => PartitionState::Ready,
            PartitionTransition::Splitting { .. } => PartitionState::Splitting,
            PartitionTransition::ReceivingSplit { .. } => PartitionState::ReceivingSplit,
            PartitionTransition::DrainingSplit { .. } => PartitionState::DrainingSplit,
            PartitionTransition::Merging { .. } => PartitionState::Merging,
        }
    }

    /// When the state started.
    pub open spec fn spec_started(self) -> u64 {
        match self {
            PartitionTransition::Ready { started_at_unix_millis } => started_at_unix_millis,
            PartitionTransition::Splitting { started_at_unix_millis, .. } => started_at_unix_millis,
            PartitionTransition::ReceivingSplit { started_at_unix_millis, .. } =>
                started_at_unix_millis,
            PartitionTransition::DrainingSplit { started_at_unix_millis, .. } =>
                started_at_unix_millis,
            PartitionTransition::Merging { started_at_unix_millis } => started_at_unix_millis,
        }
    }

    /// Returns when the state started.
    pub fn started_at_unix_millis(self) -> (res: u64)
        ensures
            res == self.spec_started(),
    {
        match self {
            PartitionTransition::Ready { started_at_unix_millis } => started_at_unix_millis,
            PartitionTransition::Splitting { started_at_unix_millis, .. } => started_at_unix_millis,
            PartitionTransition::ReceivingSplit { started_at_unix_millis, .. } =>
                started_at_unix_millis,
            PartitionTransition::DrainingSplit { started_at_unix_millis, .. } =>
                started_at_unix_millis,
            PartitionTransition::Merging { started_at_unix_millis } => started_at_unix_millis,
        }
    }

    /// The targets of a split in flight.
    pub open spec fn targets(self) -> Option<(PartitionKey, PartitionKey)> {
        match self {
            PartitionTransition::Splitting { left, right, .. } => Some((left, right)),
            PartitionTransition::DrainingSplit { left, right, .. } => Some((left, right)),
            _ => None,
        }
    }

    /// Whether this is the draining state of a split into the given targets.
    pub open spec fn drains_into(self, left: PartitionKey, right: PartitionKey) -> bool {
        self matches PartitionTransition::DrainingSplit { left: l, right: r, .. } && l == left && r
            == right
    }

    /// Returns whether this is the draining state of a split into the given
    /// targets.
    pub fn is_draining_split_of(self, left: PartitionKey, right: PartitionKey) -> (res: bool)
        ensures
            res == self.drains_into(left, right),
    {
        match self {
            PartitionTransition::DrainingSplit { left: l, right: r, .. } => l == left && r == right,
            _ => false,
        }
    }
}

/// Returns the targets of a split in flight.
pub fn split_targets(transition: PartitionTransition) -> (res: Option<
    (PartitionKey, PartitionKey),
>)
    ensures
        res == transition.targets(),
{
    match transition {
        PartitionTransition::Splitting { left, right, .. } => Some((left, right)),
        PartitionTransition::DrainingSplit { left, right, .. } => Some((left, right)),
        _ => None,
    }
}

/// The two authority values of one partition, read from one snapshot.
#[derive(Clone, Copy, Debug, PartialEq, Eq, Structural)]
pub struct Authority {
    /// The Header.
    pub header: PartitionHeader,
    /// The durable transition.
    pub transition: PartitionTransition,
}

impl Authority {
    /// Whether the Header is at a positive level and names the transition's
    /// state.
    pub open spec fn consistent(self) -> bool {
        self.header.level > 0 && self.header.state == self.transition.spec_state()
    }

    /// Accepts a consistent pair; any other is Corruption.
    pub fn new(header: PartitionHeader, transition: PartitionTransition) -> (res: Result<Self>)
        ensures
            ({
                let pair = Authority { header, transition };
                match res {
                    Ok(authority) => pair.consistent() && authority == pair,
                    Err(error) => !pair.consistent() && error == plain_error(
                        ErrorKind::Corruption,
                    ),
                }
            }),
    {
        if header.level == 0 || header.state != transition.state() {
            return Err(Error::new(ErrorKind::Corruption));
        }
        Ok(Authority { header, transition })
    }

    /// Combines the two separately read authority values of one partition:
    /// both absent means the partition does not exist, and a lone or
    /// inconsistent value is Corruption.
    pub fn from_values(
        header: Option<PartitionHeader>,
        transition: Option<PartitionTransition>,
    ) -> (res: Result<Option<Self>>)
        ensures
            match (header, transition) {
                (None, None) => res == Ok::<Option<Authority>, Error>(None),
                (Some(h), Some(t)) => if (Authority { header: h, transition: t }).consistent() {
                    res == Ok::<Option<Authority>, Error>(
                        Some(Authority { header: h, transition: t }),
                    )
                } else {
                    res == Err::<Option<Authority>, Error>(plain_error(ErrorKind::Corruption))
                },
                _ => res == Err::<Option<Authority>, Error>(plain_error(ErrorKind::Corruption)),
            },
    {
        match (header, transition) {
            (None, None) => Ok(None),
            (Some(header), Some(transition)) => match Authority::new(header, transition) {
                Ok(authority) => Ok(Some(authority)),
                Err(error) => Err(error),
            },
            _ => Err(Error::new(ErrorKind::Corruption)),
        }
    }
}

/// One partition body with its Header.
#[derive(Clone, Copy, Debug, PartialEq, Eq, Structural)]
pub struct Body {
    /// The partition.
    pub partition: PartitionKey,
    /// Its Header.
    pub header: PartitionHeader,
}

/// Whether a Header belongs to a filling split target at a level.
pub open spec fn receiving_at(header: Option<PartitionHeader>, level: u32) -> bool {
    header matches Some(h) && h.level == level && h.state == PartitionState::ReceivingSplit
}

/// The bodies whose union is the entry set of a draining split: the source
/// first, then its two targets.
pub open spec fn family(
    source: Body,
    left: PartitionKey,
    left_header: PartitionHeader,
    right: PartitionKey,
    right_header: PartitionHeader,
) -> Seq<Body> {
    seq![
        source,
        Body { partition: left, header: left_header },
        Body { partition: right, header: right_header },
    ]
}

/// Assembles the bodies of a draining split family at one level. A source at
/// another level, or a target that is missing or not filling at that level,
/// is Corruption.
pub fn split_family_bodies(
    source: Body,
    left: PartitionKey,
    left_header: Option<PartitionHeader>,
    right: PartitionKey,
    right_header: Option<PartitionHeader>,
    level: u32,
) -> (res: Result<Vec<Body>>)
    ensures
        match res {
            Ok(bodies) => {
                &&& source.header.level == level
                &&& receiving_at(left_header, level)
                &&& receiving_at(right_header, level)
                &&& bodies@ == family(source, left, left_header->0, right, right_header->0)
            },
            Err(error) => {
                &&& error == plain_error(ErrorKind::Corruption)
                &&& !(source.header.level == level && receiving_at(left_header, level)
                    && receiving_at(right_header, level))
            },
        },
{
    if source.header.level != level {
        return Err(Error::new(ErrorKind::Corruption));
    }
    match (left_header, right_header) {
        (Some(left_header), Some(right_header)) => {
            if left_header.level != level || left_header.state != PartitionState::ReceivingSplit
                || right_header.level != level || right_header.state
                != PartitionState::ReceivingSplit {
                return Err(Error::new(ErrorKind::Corruption));
            }
            let mut bodies: Vec<Body> = Vec::new();
            bodies.push(source);
            bodies.push(Body { partition: left, header: left_header });
            bodies.push(Body { partition: right, header: right_header });
            assert(bodies@ =~= family(source, left, left_header, right, right_header));
            Ok(bodies)
        },
        _ => Err(Error::new(ErrorKind::Corruption)),
    }
}

/// One partition of a level as another partition of the level sees it.
#[derive(Clone, Copy, Debug, PartialEq, Eq, Structural)]
pub struct LevelCandidate {
    /// The partition.
    pub partition: PartitionKey,
    /// The parent whose Child Entry names it.
    pub parent: PartitionKey,
    /// Its Header.
    pub header: PartitionHeader,
}

impl LevelCandidate {
    /// Whether entries of `source` may merge into this partition.
    pub open spec fn legal_for(self, source: PartitionKey) -> bool {
        self.header.state == PartitionState::Ready && self.partition != source
    }

    /// Returns whether entries of `source` may merge into this partition: it
    /// is another partition and `Ready`.
    pub fn is_legal_merge_target(&self, source: PartitionKey) -> (res: bool)
        ensures
            res == self.legal_for(source),
    {
        self.header.state == PartitionState::Ready && self.partition != source
    }
}

/// Writes go to partitions at rest, those about to split, and filling targets;
/// neither draining nor merging ones take any.
pub proof fn only_settled_partitions_take_writes(state: PartitionState)
    ensures
        state == PartitionState::DrainingSplit || state == PartitionState::Merging
            ==> !state.writable(),
        state == PartitionState::Ready || state == PartitionState::Splitting || state
            == PartitionState::ReceivingSplit ==> state.writable(),
{
}

/// A Header and a state belong together exactly when they name the same state
/// and the level is not zero.
pub proof fn authorities_agree_in_their_state(header: PartitionHeader, time: u64)
    ensures
        header.level == 0 ==> forall|transition: PartitionTransition|
            !(#[trigger] (Authority { header, transition }).consistent()),
        header.level > 0 ==> {
            &&& (Authority {
                header,
                transition: PartitionTransition::Ready { started_at_unix_millis: time },
            }).consistent() <==> header.state == PartitionState::Ready
            &&& (Authority {
                header,
                transition: PartitionTransition::Merging { started_at_unix_millis: time },
            }).consistent() <==> header.state == PartitionState::Merging
        },
        forall|transition: PartitionTransition| #[trigger]
            (Authority { header, transition }).consistent() ==> {
                &&& transition is Splitting <==> header.state == PartitionState::Splitting
                &&& transition is ReceivingSplit <==> header.state == PartitionState::ReceivingSplit
                &&& transition is DrainingSplit <==> header.state == PartitionState::DrainingSplit
            },
{
}

/// A target fills exactly when it exists, at the level and in the filling state.
pub proof fn targets_fill_at_their_level(header: Option<PartitionHeader>, level: u32)
    ensures
        header is None ==> !receiving_at(header, level),
        header matches Some(found) ==> (receiving_at(header, level) <==> found.level == level
            && found.state == PartitionState::ReceivingSplit),
{
}

/// A split family is its source, its left target and its right target.
pub proof fn families_are_source_left_right(
    source: Body,
    left: PartitionKey,
    left_header: PartitionHeader,
    right: PartitionKey,
    right_header: PartitionHeader,
)
    ensures
        ({
            let bodies = family(source, left, left_header, right, right_header);
            &&& bodies.len() == 3
            &&& bodies[0] == source
            &&& bodies[1].partition == left && bodies[1].header == left_header
            &&& bodies[2].partition == right && bodies[2].header == right_header
        }),
{
}

/// Entries merge into any partition at rest but their own.
pub proof fn merge_targets_are_other_partitions_at_rest(
    candidate: LevelCandidate,
    source: PartitionKey,
)
    ensures
        candidate.partition == source ==> !candidate.legal_for(source),
        candidate.header.state != PartitionState::Ready ==> !candidate.legal_for(source),
        candidate.partition != source && candidate.header.state == PartitionState::Ready
            ==> candidate.legal_for(source),
{
}

} // verus!
