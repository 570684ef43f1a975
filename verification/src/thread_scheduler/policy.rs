//! Classes, authority and the limits of each class.
use vstd::prelude::*;

verus! {

/// Number of scheduling classes.
pub const CLASS_COUNT: usize = 5;

/// Longest donation chain that a configuration may allow.
pub const DEFAULT_MAX_DONATION_DEPTH: usize = 8;

/// Longest donation of the default policy.
pub const DEFAULT_MAX_DONATION_NS: u64 = 50_000_000;

/// A key that the scheduler can order and compare.
///
/// Keys are ordered by their rank, and different keys have different ranks.
pub trait SchedulerKey: Copy {
    /// The place of this key in the order of keys.
    spec fn rank(self) -> int;

    /// Keys of one rank are one key.
    proof fn lemma_rank_identifies(left: Self, right: Self)
        requires
            left.rank() == right.rank(),
        ensures
            left == right,
    ;

    /// Whether this key comes before another.
    fn precedes(&self, other: &Self) -> (result: bool)
        ensures
            result == (self.rank() < other.rank()),
    ;
}

/// A standalone generation-tagged identity.
///
/// A slot may be reused only with a new, nonzero generation, so a stale key
/// compares unequal to its replacement.
#[derive(Clone, Copy, Debug, PartialEq, Eq, Structural, PartialOrd, Ord, Hash)]
pub struct OpaqueThreadKey {
    slot: u64,
    generation: u64,
}

impl OpaqueThreadKey {
    /// The slot of this key.
    pub closed spec fn slot_of(self) -> u64 {
        self.slot
    }

    /// The generation of this key.
    pub closed spec fn generation_of(self) -> u64 {
        self.generation
    }

    /// A key, if the generation is not zero.
    pub fn new(slot: u64, generation: u64) -> (key: Option<Self>)
        ensures
            match key {
                None => generation == 0,
                Some(key) => generation != 0 && key.slot_of() == slot && key.generation_of()
                    == generation,
            },
    {
        if generation == 0 {
            None
        } else {
            Some(OpaqueThreadKey { slot, generation })
        }
    }

    /// The slot.
    pub fn slot(self) -> (slot: u64)
        ensures
            slot == self.slot_of(),
    {
        self.slot
    }

    /// The generation.
    pub fn generation(self) -> (generation: u64)
        ensures
            generation == self.generation_of(),
    {
        self.generation
    }
}

/// Keys are equal exactly where slot and generation agree: a stale key never equals its
/// replacement in the same slot.
pub proof fn law_keys_identify(left: OpaqueThreadKey, right: OpaqueThreadKey)
    ensures
        left == right <==> left.slot_of() == right.slot_of() && left.generation_of()
            == right.generation_of(),
{
}

impl SchedulerKey for OpaqueThreadKey {
    /// By slot, then by generation.
    closed spec fn rank(self) -> int {
        self.slot * 0x1_0000_0000_0000_0000 + self.generation
    }

    proof fn lemma_rank_identifies(left: Self, right: Self) {
    }

    fn precedes(&self, other: &Self) -> (result: bool) {
        self.slot < other.slot || (self.slot == other.slot && self.generation < other.generation)
    }
}

impl SchedulerKey for u32 {
    open spec fn rank(self) -> int {
        self as int
    }

    proof fn lemma_rank_identifies(left: Self, right: Self) {
    }

    fn precedes(&self, other: &Self) -> (result: bool) {
        *self < *other
    }
}

impl SchedulerKey for u64 {
    open spec fn rank(self) -> int {
        self as int
    }

    proof fn lemma_rank_identifies(left: Self, right: Self) {
    }

    fn precedes(&self, other: &Self) -> (result: bool) {
        *self < *other
    }
}

/// Scheduling classes, strongest dispatch preference first.
#[derive(Clone, Copy, Debug, PartialEq, Eq, Structural, PartialOrd, Ord)]
pub enum SchedulingClass {
    Critical,
    Audio,
    Interactive,
    Normal,
    Background,
}

impl SchedulingClass {
    /// The rank of this class; lower ranks are preferred.
    pub open spec fn order(self) -> int {
        match self {
            SchedulingClass::Critical => 0,
            SchedulingClass::Audio => 1,
            SchedulingClass::Interactive => 2,
            SchedulingClass::Normal => 3,
            SchedulingClass::Background => 4,
        }
    }

    /// The class of a rank.
    pub open spec fn of_order(order: int) -> SchedulingClass {
        if order == 0 {
            SchedulingClass::Critical
        } else if order == 1 {
            SchedulingClass::Audio
        } else if order == 2 {
            SchedulingClass::Interactive
        } else if order == 3 {
            SchedulingClass::Normal
        } else {
            SchedulingClass::Background
        }
    }

    /// The stronger of two classes.
    pub open spec fn stronger(self, other: Self) -> SchedulingClass {
        if self.order() < other.order() {
            self
        } else {
            other
        }
    }

    /// The rank of this class.
    pub fn index(self) -> (index: usize)
        ensures
            index == self.order(),
    {
        match self {
            SchedulingClass::Critical => 0,
            SchedulingClass::Audio => 1,
            SchedulingClass::Interactive => 2,
            SchedulingClass::Normal => 3,
            SchedulingClass::Background => 4,
        }
    }

    /// The class of a rank.
    pub fn at(index: usize) -> (class: SchedulingClass)
        requires
            index < CLASS_COUNT,
        ensures
            class.order() == index,
            class == SchedulingClass::of_order(index as int),
    {
        if index == 0 {
            SchedulingClass::Critical
        } else if index == 1 {
            SchedulingClass::Audio
        } else if index == 2 {
            SchedulingClass::Interactive
        } else if index == 3 {
            SchedulingClass::Normal
        } else {
            SchedulingClass::Background
        }
    }

    /// The stronger of two classes.
    pub fn higher(self, other: Self) -> (class: Self)
        ensures
            class == self.stronger(other),
    {
        if self.index() < other.index() {
            self
        } else {
            other
        }
    }
}

/// Authority to assign a thread's base class.
#[derive(Clone, Copy, Debug, PartialEq, Eq, Structural)]
pub enum Authority {
    User,
    System,
    Kernel,
}

impl Authority {
    /// Users may choose the two weakest classes, the system all but the strongest.
    pub open spec fn permits(self, class: SchedulingClass) -> bool {
        match self {
            Authority::User => class == SchedulingClass::Normal || class
                == SchedulingClass::Background,
            Authority::System => class != SchedulingClass::Critical,
            Authority::Kernel => true,
        }
    }

    /// Whether this authority may choose a class.
    pub fn allows(self, class: SchedulingClass) -> (allowed: bool)
        ensures
            allowed == self.permits(class),
    {
        match self {
            Authority::User => class == SchedulingClass::Normal || class
                == SchedulingClass::Background,
            Authority::System => class != SchedulingClass::Critical,
            Authority::Kernel => true,
        }
    }
}

/// More authority never takes a class away.
pub proof fn law_authority_grows(class: SchedulingClass)
    ensures
        Authority::User.permits(class) ==> Authority::System.permits(class),
        Authority::System.permits(class) ==> Authority::Kernel.permits(class),
{
}

/// Limits of a thread while a class is effective.
#[derive(Clone, Copy, Debug, PartialEq, Eq, Structural)]
pub struct ClassPolicy {
    /// Longest uninterrupted dispatch.
    pub quantum_ns: u64,
    /// Processor time of one thread during one period.
    pub budget_ns: u64,
    /// Period after which the budget is replenished.
    pub period_ns: u64,
    /// Wait after which this class may bypass stronger ones.
    pub starvation_ns: u64,
    /// Target for the accounting of wake latency.
    pub wake_latency_target_ns: u64,
}

impl ClassPolicy {
    /// No limit is zero, and quantum, budget and period do not decrease.
    pub open spec fn usable(self) -> bool {
        &&& 0 < self.quantum_ns <= self.budget_ns <= self.period_ns
        &&& self.starvation_ns > 0
        &&& self.wake_latency_target_ns > 0
    }

    /// Whether these limits make sense.
    pub fn is_valid(self) -> (valid: bool)
        ensures
            valid == self.usable(),
    {
        self.quantum_ns != 0 && self.budget_ns != 0 && self.period_ns != 0 && self.starvation_ns
            != 0 && self.wake_latency_target_ns != 0 && self.quantum_ns <= self.budget_ns
            && self.budget_ns <= self.period_ns
    }
}

/// Limits of every class and of donations.
#[derive(Clone, Copy, Debug, PartialEq, Eq)]
pub struct SchedulerConfig {
    /// Limits by the rank of the class.
    pub classes: [ClassPolicy; 5],
    pub max_donation_depth: usize,
    pub max_donation_ns: u64,
}

/// What is wrong with a configuration.
#[derive(Clone, Copy, Debug, PartialEq, Eq, Structural)]
pub enum ConfigError {
    InvalidClassPolicy,
    ZeroDonationDepth,
    DonationDepthTooLarge,
    ZeroDonationDuration,
}

/// The default limits of each class.
pub open spec fn default_limits(order: int) -> ClassPolicy {
    if order == 0 {
        ClassPolicy {
            quantum_ns: 250_000,
            budget_ns: 1_000_000,
            period_ns: 5_000_000,
            starvation_ns: 1_000_000,
            wake_latency_target_ns: 250_000,
        }
    } else if order == 1 {
        ClassPolicy {
            quantum_ns: 1_000_000,
            budget_ns: 3_000_000,
            period_ns: 10_000_000,
            starvation_ns: 4_000_000,
            wake_latency_target_ns: 1_000_000,
        }
    } else if order == 2 {
        ClassPolicy {
            quantum_ns: 2_000_000,
            budget_ns: 6_000_000,
            period_ns: 16_000_000,
            starvation_ns: 8_000_000,
            wake_latency_target_ns: 2_000_000,
        }
    } else if order == 3 {
        ClassPolicy {
            quantum_ns: 4_000_000,
            budget_ns: 8_000_000,
            period_ns: 20_000_000,
            starvation_ns: 20_000_000,
            wake_latency_target_ns: 5_000_000,
        }
    } else {
        ClassPolicy {
            quantum_ns: 5_000_000,
            budget_ns: 5_000_000,
            period_ns: 25_000_000,
            starvation_ns: 50_000_000,
            wake_latency_target_ns: 20_000_000,
        }
    }
}

impl SchedulerConfig {
    /// The limits of a class.
    pub open spec fn limits(self, class: SchedulingClass) -> ClassPolicy {
        self.classes@[class.order()]
    }

    /// What is wrong with this configuration, if anything.
    pub open spec fn problem(self) -> Option<ConfigError> {
        if exists|i: int| 0 <= i < 5 && !(#[trigger] self.classes@[i]).usable() {
            Some(ConfigError::InvalidClassPolicy)
        } else if self.max_donation_depth == 0 {
            Some(ConfigError::ZeroDonationDepth)
        } else if self.max_donation_depth > DEFAULT_MAX_DONATION_DEPTH {
            Some(ConfigError::DonationDepthTooLarge)
        } else if self.max_donation_ns == 0 {
            Some(ConfigError::ZeroDonationDuration)
        } else {
            None
        }
    }

    /// The default limits.
    pub fn default_policy() -> (config: Self)
        ensures
            forall|i: int| 0 <= i < 5 ==> #[trigger] config.classes@[i] == default_limits(i),
            config.max_donation_depth == DEFAULT_MAX_DONATION_DEPTH,
            config.max_donation_ns == DEFAULT_MAX_DONATION_NS,
            config.problem() is None,
    {
        SchedulerConfig {
            classes: [
                ClassPolicy {
                    quantum_ns: 250_000,
                    budget_ns: 1_000_000,
                    period_ns: 5_000_000,
                    starvation_ns: 1_000_000,
                    wake_latency_target_ns: 250_000,
                },
                ClassPolicy {
                    quantum_ns: 1_000_000,
                    budget_ns: 3_000_000,
                    period_ns: 10_000_000,
                    starvation_ns: 4_000_000,
                    wake_latency_target_ns: 1_000_000,
                },
                ClassPolicy {
                    quantum_ns: 2_000_000,
                    budget_ns: 6_000_000,
                    period_ns: 16_000_000,
                    starvation_ns: 8_000_000,
                    wake_latency_target_ns: 2_000_000,
                },
                ClassPolicy {
                    quantum_ns: 4_000_000,
                    budget_ns: 8_000_000,
                    period_ns: 20_000_000,
                    starvation_ns: 20_000_000,
                    wake_latency_target_ns: 5_000_000,
                },
                ClassPolicy {
                    quantum_ns: 5_000_000,
                    budget_ns: 5_000_000,
                    period_ns: 25_000_000,
                    starvation_ns: 50_000_000,
                    wake_latency_target_ns: 20_000_000,
                },
            ],
            max_donation_depth: DEFAULT_MAX_DONATION_DEPTH,
            max_donation_ns: DEFAULT_MAX_DONATION_NS,
        }
    }

    /// Checks the configuration.
    pub fn validate(&self) -> (result: Result<(), ConfigError>)
        ensures
            result == (match self.problem() {
                Some(error) => Err(error),
                None => Ok(()),
            }),
    {
        let mut index: usize = 0;
        while index < CLASS_COUNT
            invariant
                index <= CLASS_COUNT,
                forall|i: int| 0 <= i < index ==> (#[trigger] self.classes@[i]).usable(),
            decreases CLASS_COUNT - index,
        {
            if !self.classes[index].is_valid() {
                assert(!self.classes@[index as int].usable());
                return Err(ConfigError::InvalidClassPolicy);
            }
            index += 1;
        }
        if self.max_donation_depth == 0 {
            return Err(ConfigError::ZeroDonationDepth);
        }
        if self.max_donation_depth > DEFAULT_MAX_DONATION_DEPTH {
            return Err(ConfigError::DonationDepthTooLarge);
        }
        if self.max_donation_ns == 0 {
            return Err(ConfigError::ZeroDonationDuration);
        }
        Ok(())
    }
}

impl Default for SchedulerConfig {
    fn default() -> (config: Self)
        ensures
            forall|i: int| 0 <= i < 5 ==> #[trigger] config.classes@[i] == default_limits(i),
            config.max_donation_depth == DEFAULT_MAX_DONATION_DEPTH,
            config.max_donation_ns == DEFAULT_MAX_DONATION_NS,
            config.problem() is None,
    {
        SchedulerConfig::default_policy()
    }
}

} // verus!
