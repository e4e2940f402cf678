//! Regular expressions over addresses and file names.

use vstd::prelude::*;
use crate::text::texts_of;

verus! {

/// Addresses of the monitored network, as the deployment this library was
/// written for configures them.
pub const CAMPUS_ADDRESS_PATTERN: &'static str = r"^(140\.125\.\d{1,3}\.\d{1,3})";

/// Names of the capture files that the flow decoder is run on.
pub const CAPTURE_FILE_PATTERN: &'static str = r"nfcapd\.\d{12}";

/// Whether `regex::Regex::new` accepts `pattern`.
pub uninterp spec fn regex_valid(pattern: Seq<char>) -> bool;

/// Whether the expression compiled from `pattern` matches somewhere in
/// `text`, as `regex::Regex::is_match` reports it.
pub uninterp spec fn regex_found(pattern: Seq<char>, text: Seq<char>) -> bool;

/// Compiles `pattern` with `regex::Regex::new` and searches `text` with
/// `Regex::is_match`. Whether the pattern compiles depends on the pattern
/// alone, and whether the compiled expression matches depends on the pattern
/// and the text alone; `None` stands for a pattern that did not compile.
#[verifier::external_body]
fn search(pattern: &str, text: &str) -> (r: Option<bool>)
    ensures
        r is Some <==> regex_valid(pattern@),
        r matches Some(found) ==> found == regex_found(pattern@, text@),
{
    match regex::Regex::new(pattern) {
        Ok(expression) => Some(expression.is_match(text)),
        Err(_) => None,
    }
}

/// A regular expression that is known to compile.
#[derive(Debug)]
pub struct Pattern {
    source: String,
}

impl View for Pattern {
    type V = Seq<char>;

    closed spec fn view(&self) -> Seq<char> {
        self.source@
    }
}

impl Pattern {
    /// Every pattern compiles.
    #[verifier::type_invariant]
    pub open spec fn inv(self) -> bool {
        regex_valid(self@)
    }

    /// The pattern written by `source`, where that is a regular expression.
    pub fn new(source: &str) -> (r: Option<Pattern>)
        ensures
            match r {
                Some(pattern) => pattern@ == source@ && regex_valid(source@),
                None => !regex_valid(source@),
            },
    {
        match search(source, "") {
            Some(_) => Some(Pattern { source: String::from_str(source) }),
            None => None,
        }
    }

    /// The text that the pattern was made from.
    pub fn source(&self) -> (r: &str)
        ensures
            r@ == self@,
            regex_valid(self@),
    {
        proof {
            use_type_invariant(self);
        }
        self.source.as_str()
    }

    /// Whether the pattern matches somewhere in `text`.
    pub fn is_match(&self, text: &str) -> (found: bool)
        ensures
            found == regex_found(self@, text@),
    {
        proof {
            use_type_invariant(self);
        }
        match search(self.source.as_str(), text) {
            Some(found) => found,
            None => false,
        }
    }
}

impl Clone for Pattern {
    fn clone(&self) -> (r: Pattern)
        ensures
            r@ == self@,
    {
        proof {
            use_type_invariant(self);
        }
        Pattern { source: self.source.clone() }
    }
}

/// The members of `names` that `pattern` matches, in their order.
pub open spec fn matching(names: Seq<Seq<char>>, pattern: Seq<char>) -> Seq<Seq<char>> {
    names.filter(|name: Seq<char>| regex_found(pattern, name))
}

/// Picks the capture files out of the names found in the capture directory.
pub fn get_all_netflow_file(names: Vec<String>, capture: &Pattern) -> (files: Vec<String>)
    ensures
        texts_of(files@) == matching(texts_of(names@), capture@),
{
    let mut files: Vec<String> = Vec::new();
    let ghost all = texts_of(names@);
    let ghost keep = |name: Seq<char>| regex_found(capture@, name);
    let mut i: usize = 0;
    while i < names.len()
        invariant
            i <= names.len(),
            all == texts_of(names@),
            keep == |name: Seq<char>| regex_found(capture@, name),
            texts_of(files@) == all.take(i as int).filter(keep),
        decreases names.len() - i,
    {
        proof {
            assert(all.take(i + 1).drop_last() == all.take(i as int));
            assert(all.take(i + 1).last() == names@[i as int]@);
            reveal(Seq::filter);
        }
        if capture.is_match(names[i].as_str()) {
            let name = names[i].clone();
            let ghost before = texts_of(files@);
            files.push(name);
            assert(texts_of(files@) == before.push(names@[i as int]@));
        }
        i += 1;
    }
    proof {
        assert(all.take(i as int) == all);
    }
    files
}

} // verus!
