use vstd::prelude::*;

verus! {

/// How the cost of a subtree is bounded when children are compared.
#[derive(Copy, Clone, Debug, PartialEq, Eq, Structural)]
pub enum CostBoundMode {
    Normal,
    LowerBound,
    Marginal,
}

/// The rule a bandit search uses to pick the next child to expand.
#[derive(Copy, Clone, Debug, PartialEq, Eq, Structural)]
pub enum ChildSelectionMode {
    UCB,
    UCBV,
    UCBd,
    KLUCB,
    KLUCBP,
}

/// `c` is `t` up to ASCII case, where `t` is a lower-case letter or another character.
pub open spec fn char_matches_lower(c: char, t: char) -> bool {
    c == t || ('a' <= t && t <= 'z' && c as u32 + 32 == t as u32)
}

/// `s` spells `word` (given in lower case) with any ASCII letter in either case.
pub open spec fn matches_ignoring_case(s: Seq<char>, word: Seq<char>) -> bool {
    s.len() == word.len() && forall|i: int| 0 <= i < s.len() ==> char_matches_lower(
        #[trigger] s[i],
        word[i],
    )
}

fn eq_ignore_case(s: &str, word: &str) -> (r: bool)
    ensures
        r == matches_ignoring_case(s@, word@),
{
    let n = s.unicode_len();
    if n != word.unicode_len() {
        return false;
    }
    let mut i: usize = 0;
    while i < n
        invariant
            n == s@.len(),
            n == word@.len(),
            i <= n,
            forall|k: int| 0 <= k < i ==> char_matches_lower(#[trigger] s@[k], word@[k]),
        decreases n - i,
    {
        let c = s.get_char(i);
        let t = word.get_char(i);
        let same = c == t || ('a' <= t && t <= 'z' && (c as u32) + 32 == (t as u32));
        if !same {
            return false;
        }
        i = i + 1;
    }
    true
}

/// The lower-case name under which a mode is written and parsed.
pub open spec fn cost_bound_mode_name(m: CostBoundMode) -> Seq<char> {
    match m {
        CostBoundMode::Normal => "normal"@,
        CostBoundMode::LowerBound => "lower_bound"@,
        CostBoundMode::Marginal => "marginal"@,
    }
}

pub open spec fn child_selection_mode_name(m: ChildSelectionMode) -> Seq<char> {
    match m {
        ChildSelectionMode::UCB => "ucb"@,
        ChildSelectionMode::UCBV => "ucbv"@,
        ChildSelectionMode::UCBd => "ucbd"@,
        ChildSelectionMode::KLUCB => "klucb"@,
        ChildSelectionMode::KLUCBP => "klucb+"@,
    }
}

/// The message for a text that names no mode of the kind `kind`.
pub open spec fn invalid_mode_message(kind: Seq<char>, s: Seq<char>) -> Seq<char> {
    "Invalid "@ + kind + " '"@ + s + "'"@
}

fn invalid_mode(kind: &str, s: &str) -> (r: String)
    ensures
        r@ == invalid_mode_message(kind@, s@),
{
    let mut r = String::from_str("Invalid ");
    r.append(kind);
    r.append(" '");
    r.append(s);
    r.append("'");
    r
}

impl CostBoundMode {
    /// The mode's name, as it is written in parameter files and reports.
    pub fn to_string(&self) -> (r: String)
        ensures
            r@ == cost_bound_mode_name(*self),
    {
        match self {
            CostBoundMode::Normal => String::from_str("normal"),
            CostBoundMode::LowerBound => String::from_str("lower_bound"),
            CostBoundMode::Marginal => String::from_str("marginal"),
        }
    }

    /// Reads a mode from its name, in any ASCII case.
    pub fn from_str(s: &str) -> (r: Result<CostBoundMode, String>)
        ensures
            r is Ok <==> exists|m: CostBoundMode| matches_ignoring_case(s@, cost_bound_mode_name(m)),
            r matches Ok(m) ==> matches_ignoring_case(s@, cost_bound_mode_name(m)),
            r matches Err(e) ==> e@ == invalid_mode_message("CostBoundMode"@, s@),
    {
        if eq_ignore_case(s, "normal") {
            assert(matches_ignoring_case(s@, cost_bound_mode_name(CostBoundMode::Normal)));
            Ok(CostBoundMode::Normal)
        } else if eq_ignore_case(s, "lower_bound") {
            assert(matches_ignoring_case(s@, cost_bound_mode_name(CostBoundMode::LowerBound)));
            Ok(CostBoundMode::LowerBound)
        } else if eq_ignore_case(s, "marginal") {
            assert(matches_ignoring_case(s@, cost_bound_mode_name(CostBoundMode::Marginal)));
            Ok(CostBoundMode::Marginal)
        } else {
            proof {
                assert forall|m: CostBoundMode| !matches_ignoring_case(s@, cost_bound_mode_name(m)) by {
                    match m {
                        CostBoundMode::Normal => {},
                        CostBoundMode::LowerBound => {},
                        CostBoundMode::Marginal => {},
                    }
                }
            }
            Err(invalid_mode("CostBoundMode", s))
        }
    }
}

impl ChildSelectionMode {
    /// The mode's name, as it is written in parameter files and reports.
    pub fn to_string(&self) -> (r: String)
        ensures
            r@ == child_selection_mode_name(*self),
    {
        match self {
            ChildSelectionMode::UCB => String::from_str("ucb"),
            ChildSelectionMode::UCBV => String::from_str("ucbv"),
            ChildSelectionMode::UCBd => String::from_str("ucbd"),
            ChildSelectionMode::KLUCB => String::from_str("klucb"),
            ChildSelectionMode::KLUCBP => String::from_str("klucb+"),
        }
    }

    /// Reads a mode from its name, in any ASCII case.
    pub fn from_str(s: &str) -> (r: Result<ChildSelectionMode, String>)
        ensures
            r is Ok <==> exists|m: ChildSelectionMode|
                matches_ignoring_case(s@, child_selection_mode_name(m)),
            r matches Ok(m) ==> matches_ignoring_case(s@, child_selection_mode_name(m)),
            r matches Err(e) ==> e@ == invalid_mode_message("ChildSelectionMode"@, s@),
    {
        if eq_ignore_case(s, "ucb") {
            assert(matches_ignoring_case(s@, child_selection_mode_name(ChildSelectionMode::UCB)));
            Ok(ChildSelectionMode::UCB)
        } else if eq_ignore_case(s, "ucbv") {
            assert(matches_ignoring_case(s@, child_selection_mode_name(ChildSelectionMode::UCBV)));
            Ok(ChildSelectionMode::UCBV)
        } else if eq_ignore_case(s, "ucbd") {
            assert(matches_ignoring_case(s@, child_selection_mode_name(ChildSelectionMode::UCBd)));
            Ok(ChildSelectionMode::UCBd)
        } else if eq_ignore_case(s, "klucb") {
            assert(matches_ignoring_case(s@, child_selection_mode_name(ChildSelectionMode::KLUCB)));
            Ok(ChildSelectionMode::KLUCB)
        } else if eq_ignore_case(s, "klucb+") {
            assert(matches_ignoring_case(s@, child_selection_mode_name(ChildSelectionMode::KLUCBP)));
            Ok(ChildSelectionMode::KLUCBP)
        } else {
            proof {
                assert forall|m: ChildSelectionMode|
                    !matches_ignoring_case(s@, child_selection_mode_name(m)) by {
                    match m {
                        ChildSelectionMode::UCB => {},
                        ChildSelectionMode::UCBV => {},
                        ChildSelectionMode::UCBd => {},
                        ChildSelectionMode::KLUCB => {},
                        ChildSelectionMode::KLUCBP => {},
                    }
                }
            }
            Err(invalid_mode("ChildSelectionMode", s))
        }
    }
}

} // verus!
