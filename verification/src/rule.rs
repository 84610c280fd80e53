//! Resolution rules for duplicate conflicts, and the mapping from an
//! operator's keystrokes to the rule they chose.

use vstd::prelude::*;
use vstd::string::*;

verus! {

/// How duplicates between one pair of directories are resolved.
#[derive(Clone, Debug, PartialEq, Eq)]
pub enum Rule {
    /// Report each duplicate pair; touch nothing on disk.
    Print,
    /// Remove whichever duplicate lies under the named directory.
    Delete(String),
    /// Move whichever duplicate lies under the first directory into the
    /// second, keeping its file name.
    Move(String, String),
}

/// The mathematical shape of a [`Rule`].
pub enum RuleModel {
    Print,
    Delete(Seq<char>),
    Move(Seq<char>, Seq<char>),
}

impl View for Rule {
    type V = RuleModel;

    open spec fn view(&self) -> RuleModel {
        match self {
            Rule::Print => RuleModel::Print,
            Rule::Delete(loser) => RuleModel::Delete(loser@),
            Rule::Move(loser, dest) => RuleModel::Move(loser@, dest@),
        }
    }
}

/// The rule that a pair of keystroke answers chooses.
///
/// `choice` answers "[P]rint, [D]elete, [M]ove?" as the byte read from the
/// console; `keep` answers "Which path is preferable?", where `'1'` keeps
/// `new_parent`'s copy and `'2'` keeps `existing_parent`'s; `dest` is the
/// directory readied for moved files, `None` when it could not be created.
/// Any `choice` besides `'d'` and `'m'` reports only, as does a Move whose
/// destination is missing.
pub open spec fn decide_spec(
    choice: u8,
    keep: u8,
    new_parent: Seq<char>,
    existing_parent: Seq<char>,
    dest: Option<Seq<char>>,
) -> RuleModel {
    if choice == 100u8 {  // 'd'
        if keep == 50u8 {  // '2': the existing side is kept
            RuleModel::Delete(new_parent)
        } else {
            RuleModel::Delete(existing_parent)
        }
    } else if choice == 109u8 {  // 'm'
        match dest {
            Option::Some(d) => {
                if keep == 50u8 {
                    RuleModel::Move(new_parent, d)
                } else {
                    RuleModel::Move(existing_parent, d)
                }
            },
            Option::None => RuleModel::Print,
        }
    } else {
        RuleModel::Print
    }
}

/// Builds the [`Rule`] that the operator's keystrokes chose; see
/// [`decide_spec`].
pub fn decide_rule(
    choice: u8,
    keep: u8,
    new_parent: &str,
    existing_parent: &str,
    dest: Option<String>,
) -> (r: Rule)
    ensures
        r@ == decide_spec(
            choice,
            keep,
            new_parent@,
            existing_parent@,
            match dest {
                Option::Some(d) => Option::Some(d@),
                Option::None => Option::None,
            },
        ),
{
    if choice == 100u8 {
        if keep == 50u8 {
            Rule::Delete(String::from_str(new_parent))
        } else {
            Rule::Delete(String::from_str(existing_parent))
        }
    } else if choice == 109u8 {
        match dest {
            Option::Some(d) => {
                if keep == 50u8 {
                    Rule::Move(String::from_str(new_parent), d)
                } else {
                    Rule::Move(String::from_str(existing_parent), d)
                }
            },
            Option::None => Rule::Print,
        }
    } else {
        Rule::Print
    }
}

} // verus!
