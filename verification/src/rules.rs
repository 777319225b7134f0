use vstd::prelude::*;

verus! {

/// Nanoseconds in one whole day.
pub const NANOS_PER_DAY: i128 = 86_400_000_000_000;

/// A span of time, counted in nanoseconds.
///
/// Base penalty durations, earned penalty totals and remaining ban times are
/// all values of this type.
#[derive(Clone, Copy, PartialEq, Eq, Structural, Debug)]
pub struct Duration {
    pub nanos: i128,
}

impl Duration {
    /// The span of `days` whole days.
    pub fn days(days: i64) -> (r: Duration)
        ensures
            r.nanos == days * NANOS_PER_DAY,
    {
        Duration { nanos: (days as i128) * NANOS_PER_DAY }
    }

    /// True iff the span is strictly positive.
    pub fn is_positive(&self) -> (r: bool)
        ensures
            r == (self.nanos > 0),
    {
        self.nanos > 0
    }
}

/// Identifies the other party a `Bypass` violation involved.
pub type PlayerId = u64;

/// The categories of rule violations.
///
/// `Bypass` carries the other party involved; two `Bypass` values with
/// different payloads are distinct categories for grouping purposes.
#[derive(Clone, Copy, PartialEq, Eq, Hash, Debug, Structural)]
pub enum Rules<Player> {
    Grief,
    Waste,
    Nsfw,
    Bypass(Player),
}

/// Static metadata of a violation category.
pub struct RuleInfo {
    pub tag: &'static str,
    pub desc_en: &'static str,
    pub desc_ru: &'static str,
    pub duration: Duration,
}

/// The base penalty duration of a category, in nanoseconds.
pub open spec fn spec_base_nanos<Player>(r: Rules<Player>) -> int {
    match r {
        Rules::Grief => 7 * NANOS_PER_DAY,
        Rules::Waste => 1 * NANOS_PER_DAY,
        Rules::Nsfw => 1 * NANOS_PER_DAY,
        Rules::Bypass(_) => 7 * NANOS_PER_DAY,
    }
}

impl<Player> Rules<Player> {
    /// The metadata of this category: its identifier, its descriptions and
    /// its base penalty duration.
    pub fn info(&self) -> (r: RuleInfo)
        ensures
            r.duration.nanos == spec_base_nanos(*self),
            r.duration.nanos > 0,
            (*self matches Rules::Grief) ==> r.tag@ == "grief"@,
            (*self matches Rules::Waste) ==> r.tag@ == "waste"@,
            (*self matches Rules::Nsfw) ==> r.tag@ == "nsfw"@,
            (*self matches Rules::Bypass(_)) ==> r.tag@ == "bypass"@,
    {
        match *self {
            Rules::Grief => RuleInfo {
                tag: "grief",
                desc_en: "Intentionally causing harm to your team.",
                desc_ru: "Умышленное причинение вреда своей команде.",
                duration: Duration::days(7),
            },
            Rules::Waste => RuleInfo {
                tag: "waste",
                desc_en: "A waste of resources or free space.",
                desc_ru: "Бесполезная трата ресурсов или свободного места.",
                duration: Duration::days(1),
            },
            Rules::Nsfw => RuleInfo {
                tag: "nsfw",
                desc_en: "test",
                desc_ru: "test",
                duration: Duration::days(1),
            },
            Rules::Bypass(_) => RuleInfo {
                tag: "bypass",
                desc_en: "test",
                desc_ru: "test",
                duration: Duration::days(7),
            },
        }
    }
}

} // verus!
