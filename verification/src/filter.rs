//! Key extraction: the part of a record by which it is told apart from
//! others.
//!
//! A pattern either names what to keep of a record (its groups, or the whole
//! match if it has none) or what to strip from it. Without a pattern the
//! record is its own key.

use crate::pattern::{
    captures_of, compiled, groups_view, regex_captures, regex_new, regex_replace_all, replaced,
};
use regex::bytes::Regex;
use vstd::prelude::*;
use vstd::slice::slice_to_vec;
use vstd::string::StringExecFns;

verus! {

/// The error of a pattern that the engine refuses to compile.
#[derive(Debug, Clone, PartialEq, Eq)]
pub struct InvalidPattern {
    /// The pattern as it was given.
    pub pattern: String,
}

impl InvalidPattern {
    /// The error in words, with the pattern at the end.
    pub fn message(&self) -> (text: String)
        ensures
            text@ == "invalid regular expression: "@ + self.pattern@,
    {
        let mut text = "invalid regular expression: ".to_owned();
        text.append(self.pattern.as_str());
        text
    }
}

/// The bytes of the groups that took part in a match, one after another. A
/// group that took no part adds nothing.
pub open spec fn concat_present(groups: Seq<Option<Seq<u8>>>) -> Seq<u8>
    decreases groups.len(),
{
    if groups.len() == 0 {
        Seq::empty()
    } else {
        concat_present(groups.drop_last()) + match groups.last() {
            Some(bytes) => bytes,
            None => Seq::empty(),
        }
    }
}

/// The groups that make the key. A pattern without groups of its own has
/// only group 0, the whole match, and that is the key; otherwise the key is
/// made of the pattern's own groups and the whole match is left out.
pub open spec fn key_groups(groups: Seq<Option<Seq<u8>>>) -> Seq<Option<Seq<u8>>> {
    if groups.len() <= 1 {
        groups
    } else {
        groups.skip(1)
    }
}

/// The key that the captured groups of a match give.
pub open spec fn joined(groups: Seq<Option<Seq<u8>>>) -> Seq<u8> {
    concat_present(key_groups(groups))
}

/// The key of a record under a pattern that says what to keep, from what a
/// search of the record captured: none where the pattern did not match.
pub open spec fn kept_key(found: Option<Seq<Option<Seq<u8>>>>) -> Option<Seq<u8>> {
    match found {
        Some(groups) => Some(joined(groups)),
        None => None,
    }
}

/// Joins the captured groups of one match into a key.
pub fn join_groups(groups: &Vec<Option<Vec<u8>>>) -> (key: Vec<u8>)
    ensures
        key@ == joined(groups_view(groups@)),
{
    let ghost all = groups_view(groups@);
    let start: usize = if groups.len() <= 1 {
        0
    } else {
        1
    };
    let mut key: Vec<u8> = Vec::new();
    let mut i: usize = start;
    assert(all.subrange(start as int, i as int) =~= Seq::empty());
    while i < groups.len()
        invariant
            all == groups_view(groups@),
            start <= i <= groups.len(),
            key@ == concat_present(all.subrange(start as int, i as int)),
        decreases groups.len() - i,
    {
        let ghost done = all.subrange(start as int, i as int);
        let ghost more = all.subrange(start as int, i + 1);
        assert(more.drop_last() =~= done);
        assert(more.last() == all[i as int]);
        match &groups[i] {
            Some(bytes) => {
                key.extend_from_slice(bytes.as_slice());
                assert(key@ =~= concat_present(done) + bytes@);
            },
            None => {
                assert(key@ =~= concat_present(done) + Seq::<u8>::empty());
            },
        }
        i += 1;
    }
    assert(all.subrange(start as int, i as int) =~= key_groups(all));
    key
}

/// The key of a record from what a search of it captured.
pub fn key_from_captures(found: Option<Vec<Option<Vec<u8>>>>) -> (key: Option<Vec<u8>>)
    ensures
        match key {
            Some(bytes) => found matches Some(groups) && bytes@ == joined(groups_view(groups@)),
            None => found is None,
        },
{
    match found {
        Some(groups) => Some(join_groups(&groups)),
        None => None,
    }
}

/// A pattern that says what to keep of a record.
pub struct IncludeFilter {
    re: Regex,
}

impl IncludeFilter {
    /// The compiled pattern.
    pub closed spec fn regex(&self) -> Regex {
        self.re
    }

    /// The key of `line`: what the leftmost match captured, joined, or none
    /// where the pattern does not match.
    pub open spec fn key_of(&self, line: Seq<u8>) -> Option<Seq<u8>> {
        kept_key(captures_of(self.regex(), line))
    }

    /// Compiles `regex`. Fails, with the pattern in the error, exactly when
    /// the engine refuses it.
    pub fn new(regex: &str) -> (made: Result<Self, InvalidPattern>)
        ensures
            match made {
                Ok(filter) => compiled(regex@) == Some(filter.regex()),
                Err(e) => compiled(regex@) is None && e.pattern@ == regex@,
            },
    {
        match regex_new(regex) {
            Ok(re) => Ok(IncludeFilter { re }),
            Err(_) => Err(InvalidPattern { pattern: regex.to_owned() }),
        }
    }

    /// The key of `line`, or none where the pattern does not match.
    pub fn filter(&self, line: &[u8]) -> (key: Option<Vec<u8>>)
        ensures
            match key {
                Some(bytes) => self.key_of(line@) == Some(bytes@),
                None => self.key_of(line@) is None,
            },
    {
        key_from_captures(regex_captures(&self.re, line))
    }
}

/// A pattern that says what to strip from a record.
pub struct ExcludeFilter {
    re: Regex,
}

impl ExcludeFilter {
    /// The compiled pattern.
    pub closed spec fn regex(&self) -> Regex {
        self.re
    }

    /// The key of `line`: the line without the matches of the pattern.
    pub open spec fn key_of(&self, line: Seq<u8>) -> Seq<u8> {
        replaced(self.regex(), line, Seq::empty())
    }

    /// Compiles `regex`. Fails, with the pattern in the error, exactly when
    /// the engine refuses it.
    pub fn new(regex: &str) -> (made: Result<Self, InvalidPattern>)
        ensures
            match made {
                Ok(filter) => compiled(regex@) == Some(filter.regex()),
                Err(e) => compiled(regex@) is None && e.pattern@ == regex@,
            },
    {
        match regex_new(regex) {
            Ok(re) => Ok(ExcludeFilter { re }),
            Err(_) => Err(InvalidPattern { pattern: regex.to_owned() }),
        }
    }

    /// The key of `line`, which there always is. A line in which the
    /// pattern does not match is its own key.
    pub fn filter(&self, line: &[u8]) -> (key: Option<Vec<u8>>)
        ensures
            key matches Some(bytes) && bytes@ == self.key_of(line@),
            captures_of(self.regex(), line@) is None ==> (key matches Some(bytes) && bytes@
                == line@),
    {
        let nothing: Vec<u8> = Vec::new();
        Some(regex_replace_all(&self.re, line, nothing.as_slice()))
    }
}

/// Which of the two a pattern says: what to keep, or what to strip.
#[derive(Debug, Clone, Copy, PartialEq, Eq, Structural)]
pub enum Mode {
    /// The pattern says what to keep.
    Include,
    /// The pattern says what to strip.
    Exclude,
}

/// How a record becomes a key.
pub enum KeyExtractor {
    /// The record is its own key.
    Identity,
    /// The key is what the pattern captures.
    Include(IncludeFilter),
    /// The key is the record without what the pattern matches.
    Exclude(ExcludeFilter),
}

impl KeyExtractor {
    /// How the pattern is read, if there is one.
    pub open spec fn mode(&self) -> Option<Mode> {
        match self {
            KeyExtractor::Identity => None,
            KeyExtractor::Include(_) => Some(Mode::Include),
            KeyExtractor::Exclude(_) => Some(Mode::Exclude),
        }
    }

    /// The compiled pattern, if there is one.
    pub open spec fn regex(&self) -> Option<Regex> {
        match self {
            KeyExtractor::Identity => None,
            KeyExtractor::Include(filter) => Some(filter.regex()),
            KeyExtractor::Exclude(filter) => Some(filter.regex()),
        }
    }

    /// The key of `record`, if it has one.
    pub open spec fn key_of(&self, record: Seq<u8>) -> Option<Seq<u8>> {
        match self {
            KeyExtractor::Identity => Some(record),
            KeyExtractor::Include(filter) => filter.key_of(record),
            KeyExtractor::Exclude(filter) => Some(filter.key_of(record)),
        }
    }

    /// The extractor for `pattern` read as `mode` says, or the identity
    /// where there is no pattern. Fails, with the pattern in the error,
    /// exactly when the engine refuses the pattern.
    pub fn compile(pattern: Option<&str>, mode: Mode) -> (made: Result<Self, InvalidPattern>)
        ensures
            pattern is None ==> (made matches Ok(extractor) && extractor is Identity),
            pattern matches Some(text) ==> match compiled(text@) {
                Some(re) => made matches Ok(extractor) && extractor.mode() == Some(mode)
                    && extractor.regex() == Some(re),
                None => made matches Err(e) && e.pattern@ == text@,
            },
    {
        match pattern {
            None => Ok(KeyExtractor::Identity),
            Some(text) => match mode {
                Mode::Include => match IncludeFilter::new(text) {
                    Ok(filter) => Ok(KeyExtractor::Include(filter)),
                    Err(e) => Err(e),
                },
                Mode::Exclude => match ExcludeFilter::new(text) {
                    Ok(filter) => Ok(KeyExtractor::Exclude(filter)),
                    Err(e) => Err(e),
                },
            },
        }
    }

    /// The key of `record`, or none where a pattern that says what to keep
    /// does not match it.
    pub fn extract(&self, record: &[u8]) -> (key: Option<Vec<u8>>)
        ensures
            match key {
                Some(bytes) => self.key_of(record@) == Some(bytes@),
                None => self.key_of(record@) is None,
            },
    {
        match self {
            KeyExtractor::Identity => Some(slice_to_vec(record)),
            KeyExtractor::Include(filter) => filter.filter(record),
            KeyExtractor::Exclude(filter) => filter.filter(record),
        }
    }
}

} // verus!
