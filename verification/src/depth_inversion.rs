//! Severity grades of a corrosion defect, by depth as a share of the wall.

use vstd::prelude::*;

verus! {

/// Severity of a wall-loss defect, from the shallowest to the deepest grade.
#[derive(Debug, Clone, Copy, PartialEq, Eq, Structural)]
pub enum DepthSeverity {
    Negligible,
    Minor,
    Moderate,
    Severe,
    Critical,
}

/// Position of a grade in the order from `Negligible` (0) to `Critical` (4).
pub open spec fn severity_rank(s: DepthSeverity) -> int {
    match s {
        DepthSeverity::Negligible => 0,
        DepthSeverity::Minor => 1,
        DepthSeverity::Moderate => 2,
        DepthSeverity::Severe => 3,
        DepthSeverity::Critical => 4,
    }
}

/// Report label of each grade, with its band of wall thickness.
pub open spec fn severity_label(s: DepthSeverity) -> &'static str {
    match s {
        DepthSeverity::Negligible => "Negligible  (<5%WT)",
        DepthSeverity::Minor => "Minor       (5-15%WT)",
        DepthSeverity::Moderate => "Moderate   (15-30%WT)",
        DepthSeverity::Severe => "Severe      (30-50%WT)",
        DepthSeverity::Critical => "Critical    (>50%WT)",
    }
}

/// One-character map symbol of each grade.
pub open spec fn severity_tag(s: DepthSeverity) -> char {
    match s {
        DepthSeverity::Negligible => '.',
        DepthSeverity::Minor => ':',
        DepthSeverity::Moderate => '+',
        DepthSeverity::Severe => '#',
        DepthSeverity::Critical => '@',
    }
}

impl DepthSeverity {
    /// Report label of the grade.
    pub fn label(&self) -> (s: &'static str)
        ensures
            s@ == severity_label(*self)@,
    {
        match self {
            DepthSeverity::Negligible => "Negligible  (<5%WT)",
            DepthSeverity::Minor => "Minor       (5-15%WT)",
            DepthSeverity::Moderate => "Moderate   (15-30%WT)",
            DepthSeverity::Severe => "Severe      (30-50%WT)",
            DepthSeverity::Critical => "Critical    (>50%WT)",
        }
    }

    /// One-character map symbol of the grade.
    pub fn tag(&self) -> (c: char)
        ensures
            c == severity_tag(*self),
    {
        match self {
            DepthSeverity::Negligible => '.',
            DepthSeverity::Minor => ':',
            DepthSeverity::Moderate => '+',
            DepthSeverity::Severe => '#',
            DepthSeverity::Critical => '@',
        }
    }

    /// Position of the grade from `Negligible` (0) to `Critical` (4).
    pub fn rank(&self) -> (r: u8)
        ensures
            r == severity_rank(*self),
    {
        match self {
            DepthSeverity::Negligible => 0,
            DepthSeverity::Minor => 1,
            DepthSeverity::Moderate => 2,
            DepthSeverity::Severe => 3,
            DepthSeverity::Critical => 4,
        }
    }
}

/// `t` is a prefix of `s`.
pub open spec fn starts_with(s: Seq<char>, t: Seq<char>) -> bool {
    t.len() <= s.len() && s.take(t.len() as int) == t
}

/// `t` is a suffix of `s`.
pub open spec fn ends_with(s: Seq<char>, t: Seq<char>) -> bool {
    t.len() <= s.len() && s.skip(s.len() - t.len()) == t
}

/// Each grade's label starts with the grade's own name and ends with its own
/// band of wall loss, as a share of the wall thickness; distinct grades have
/// distinct labels.
pub proof fn law_labels_name_their_grade(a: DepthSeverity, b: DepthSeverity)
    ensures
        severity_label(a)@ == severity_label(b)@ <==> a == b,
        match a {
            DepthSeverity::Negligible => starts_with(severity_label(a)@, "Negligible"@) && ends_with(
                severity_label(a)@,
                "(<5%WT)"@,
            ),
            DepthSeverity::Minor => starts_with(severity_label(a)@, "Minor"@) && ends_with(
                severity_label(a)@,
                "(5-15%WT)"@,
            ),
            DepthSeverity::Moderate => starts_with(severity_label(a)@, "Moderate"@) && ends_with(
                severity_label(a)@,
                "(15-30%WT)"@,
            ),
            DepthSeverity::Severe => starts_with(severity_label(a)@, "Severe"@) && ends_with(
                severity_label(a)@,
                "(30-50%WT)"@,
            ),
            DepthSeverity::Critical => starts_with(severity_label(a)@, "Critical"@) && ends_with(
                severity_label(a)@,
                "(>50%WT)"@,
            ),
        },
{
    reveal_strlit("Negligible  (<5%WT)");
    reveal_strlit("Minor       (5-15%WT)");
    reveal_strlit("Moderate   (15-30%WT)");
    reveal_strlit("Severe      (30-50%WT)");
    reveal_strlit("Critical    (>50%WT)");
    reveal_strlit("Negligible");
    reveal_strlit("Minor");
    reveal_strlit("Moderate");
    reveal_strlit("Severe");
    reveal_strlit("Critical");
    reveal_strlit("(<5%WT)");
    reveal_strlit("(5-15%WT)");
    reveal_strlit("(15-30%WT)");
    reveal_strlit("(30-50%WT)");
    reveal_strlit("(>50%WT)");
    let l = severity_label(a)@;
    match a {
        DepthSeverity::Negligible => {
            assert(l.take(10) =~= "Negligible"@);
            assert(l.skip(12) =~= "(<5%WT)"@);
        },
        DepthSeverity::Minor => {
            assert(l.take(5) =~= "Minor"@);
            assert(l.skip(12) =~= "(5-15%WT)"@);
        },
        DepthSeverity::Moderate => {
            assert(l.take(8) =~= "Moderate"@);
            assert(l.skip(11) =~= "(15-30%WT)"@);
        },
        DepthSeverity::Severe => {
            assert(l.take(6) =~= "Severe"@);
            assert(l.skip(12) =~= "(30-50%WT)"@);
        },
        DepthSeverity::Critical => {
            assert(l.take(8) =~= "Critical"@);
            assert(l.skip(12) =~= "(>50%WT)"@);
        },
    }
    if severity_label(a)@ == severity_label(b)@ {
        assert(severity_label(a)@[0] == severity_label(b)@[0]);
        assert(severity_label(a)@[1] == severity_label(b)@[1]);
    }
}

/// Distinct grades have distinct symbols, so a map symbol names its grade.
pub proof fn law_tags_distinct(a: DepthSeverity, b: DepthSeverity)
    ensures
        severity_tag(a) == severity_tag(b) <==> a == b,
        severity_rank(a) == severity_rank(b) <==> a == b,
{
}

} // verus!
