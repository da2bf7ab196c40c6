//! Which started programs are tracked.

use crate::text;
use regex::Regex;
use vstd::prelude::*;

verus! {

/// What the `regex` crate finds wrong with a pattern, or `None` where it compiles. A pattern is
/// also refused where its compiled form grows too large, which depends on the machine's word size
/// in bits.
pub uninterp spec fn regex_fault(pattern: Seq<char>, word: nat) -> Option<Seq<char>>;

/// Whether the `regex` crate finds a match of a pattern anywhere in a text.
pub uninterp spec fn regex_matches(pattern: Seq<char>, text: Seq<char>) -> bool;

/// `regex::Regex::new`: compiles a pattern, and gives the error's message where it does not
/// compile. The message is a function of the pattern and the word size.
#[verifier::external_body]
fn pattern_fault(pattern: &str) -> (r: Option<String>)
    ensures
        text::opt_text(r) == regex_fault(pattern@, usize::BITS as nat),
{
    match Regex::new(pattern) {
        Ok(_) => None,
        Err(e) => Some(e.to_string()),
    }
}

/// `regex::Regex::is_match` of a pattern that compiles. It is a function of the pattern and the
/// text.
#[verifier::external_body]
fn pattern_matches(pattern: &str, text: &str) -> (r: bool)
    requires
        regex_fault(pattern@, usize::BITS as nat) is None,
    ensures
        r == regex_matches(pattern@, text@),
{
    Regex::new(pattern).unwrap().is_match(text)
}

/// The rule on which started programs are tracked.
#[derive(Debug)]
pub struct Filter {
    allow_uids: Vec<u32>,
    deny_pattern: Option<String>,
}

/// The view of a filter: the users whose programs are tracked, where none stands for all, and the
/// pattern of the commands that are not.
#[verifier::ext_equal]
pub struct FilterView {
    pub allow_uids: Seq<u32>,
    pub deny_pattern: Option<Seq<char>>,
}

impl View for Filter {
    type V = FilterView;

    closed spec fn view(&self) -> FilterView {
        FilterView {
            allow_uids: self.allow_uids@,
            deny_pattern: text::opt_text(self.deny_pattern),
        }
    }
}

/// The pattern that counts: an empty one is none.
pub open spec fn effective(pattern: Option<Seq<char>>) -> Option<Seq<char>> {
    match pattern {
        Some(p) => if p.len() == 0 {
            None
        } else {
            Some(p)
        },
        None => None,
    }
}

/// Whether a program that a user starts is tracked.
pub open spec fn allows(filter: FilterView, uid: u32, command: Seq<char>) -> bool {
    &&& filter.allow_uids.len() == 0 || filter.allow_uids.contains(uid)
    &&& match filter.deny_pattern {
        Some(p) => !regex_matches(p, command),
        None => true,
    }
}

impl Filter {
    #[verifier::type_invariant]
    closed spec fn inv(self) -> bool {
        self.deny_pattern is Some ==> regex_fault(
            self.deny_pattern->0@,
            usize::BITS as nat,
        ) is None
    }

    /// The filter with the given users and pattern; the message of the pattern's error where it
    /// does not compile.
    pub fn new(allow_uids: Vec<u32>, deny_pattern: Option<String>) -> (r: Result<Filter, String>)
        ensures
            match effective(text::opt_text(deny_pattern)) {
                None => r is Ok && r->Ok_0@ == (FilterView {
                    allow_uids: allow_uids@,
                    deny_pattern: None,
                }),
                Some(p) => match regex_fault(p, usize::BITS as nat) {
                    None => r is Ok && r->Ok_0@ == (FilterView {
                        allow_uids: allow_uids@,
                        deny_pattern: Some(p),
                    }),
                    Some(message) => r is Err && r->Err_0@ == message,
                },
            },
    {
        match deny_pattern {
            Some(p) => {
                if p.as_str().is_empty() {
                    return Ok(Filter { allow_uids, deny_pattern: None });
                }
                match pattern_fault(p.as_str()) {
                    None => Ok(Filter { allow_uids, deny_pattern: Some(p) }),
                    Some(message) => Err(message),
                }
            },
            None => Ok(Filter { allow_uids, deny_pattern: None }),
        }
    }

    /// Whether the program that a user starts is tracked.
    pub fn allow(&self, uid: u32, command: &str) -> (r: bool)
        ensures
            r == allows(self@, uid, command@),
    {
        proof {
            use_type_invariant(self);
        }
        let n: usize = self.allow_uids.len();
        let mut listed: bool = n == 0;
        for i in 0..n
            invariant
                n == self.allow_uids@.len(),
                listed == (n == 0 || exists|k: int|
                    0 <= k < i && #[trigger] self.allow_uids@[k] == uid),
        {
            if self.allow_uids[i] == uid {
                listed = true;
            }
        }
        if !listed {
            return false;
        }
        match &self.deny_pattern {
            Some(p) => !pattern_matches(p.as_str(), command),
            None => true,
        }
    }
}

} // verus!
