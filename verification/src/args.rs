//! The search settings and the predicates they define on an entry.

use vstd::prelude::*;
use crate::entry::{Entry, EntryKind, Metadata};
use crate::perm::{parse_perm_spec, perm_matches, PermSpec};
use crate::pattern::{
    glob_compiles, is_single_segment, name_test, pattern_compiles, test_name, text_of, NameTest,
};

verus! {

/// Mode bit: set user id on execution.
pub const SUID_BIT: u32 = 0o4000;

/// Mode bit: set group id on execution.
pub const SGID_BIT: u32 = 0o2000;

/// Mode bit: others may execute.
pub const EXEC_OTHER_BIT: u32 = 0o001;

/// A kind of entry that a search can ask for.
#[derive(Debug, Clone, Copy, PartialEq, Eq, Hash, Structural)]
pub enum FileType {
    /// Files, and everything else that is not a directory.
    File,
    /// Directories.
    Dir,
}

/// What makes search settings unusable.
#[derive(Debug, Clone, Copy, PartialEq, Eq, Structural)]
pub enum ConfigError {
    /// No kind of entry is asked for, so nothing could be reported.
    NoTypes,
    /// The permission specifier is neither an octal value nor `/` and an
    /// octal mask.
    BadPerm,
    /// The name pattern is not a well-formed glob.
    BadPattern,
}

/// The first fault among three findings about search settings, in the order
/// in which they are looked at: the kinds asked for, the permission
/// specifier, the name pattern.
pub open spec fn first_fault(has_types: bool, perm_ok: bool, pattern_ok: bool) -> Result<
    (),
    ConfigError,
> {
    if !has_types {
        Err(ConfigError::NoTypes)
    } else if !perm_ok {
        Err(ConfigError::BadPerm)
    } else if !pattern_ok {
        Err(ConfigError::BadPattern)
    } else {
        Ok(())
    }
}

/// Turns three findings about search settings into a verdict.
pub fn judge(has_types: bool, perm_ok: bool, pattern_ok: bool) -> (r: Result<(), ConfigError>)
    ensures
        r == first_fault(has_types, perm_ok, pattern_ok),
{
    if !has_types {
        Err(ConfigError::NoTypes)
    } else if !perm_ok {
        Err(ConfigError::BadPerm)
    } else if !pattern_ok {
        Err(ConfigError::BadPattern)
    } else {
        Ok(())
    }
}

/// The settings of one search.
#[derive(Debug, Clone)]
pub struct Args {
    /// The directory where the search starts.
    pub path: String,
    /// The kinds of entry that are reported.
    pub types: Vec<FileType>,
    /// The glob pattern a base name has to match; absent or empty, every
    /// name matches.
    pub name: Option<String>,
    /// Whether names are compared case-sensitively.
    pub case_sensitive: bool,
    /// The permission specifier: an octal value that the permission bits
    /// have to equal, or `/` and an octal mask of which a bit has to be set.
    pub perm: Option<String>,
    /// Whether failures to read are shown.
    pub verbose: bool,
    /// Ask for entries that others may execute.
    pub exec_other: bool,
    /// Ask for entries with the setuid bit.
    pub suid: bool,
    /// Ask for entries with the setgid bit.
    pub sgid: bool,
    /// Ask for entries owned by user id 0.
    pub owned_by_root: bool,
}

/// The characters of an optional string.
pub open spec fn chars_of(s: Option<String>) -> Option<Seq<char>> {
    match s {
        Some(t) => Some(t@),
        None => None,
    }
}

impl Args {
    /// At least one of the four flag filters is asked for.
    pub open spec fn any_flag(&self) -> bool {
        self.suid || self.sgid || self.exec_other || self.owned_by_root
    }

    /// Every flag that is asked for holds of an entry with mode `mode`
    /// and owner `owner` (`None`: the owner is not known).
    pub open spec fn flags_match(&self, mode: u32, owner: Option<u32>) -> bool {
        &&& self.suid ==> mode & SUID_BIT != 0
        &&& self.sgid ==> mode & SGID_BIT != 0
        &&& self.exec_other ==> mode & EXEC_OTHER_BIT != 0
        &&& self.owned_by_root ==> owner == Some(0u32)
    }

    /// The permission specifier, where there is one, can be read.
    pub open spec fn perm_readable(&self) -> bool {
        self.perm matches Some(p) ==> parse_perm_spec(p@) is Some
    }

    /// The name pattern, where there is one, is a well-formed glob.
    pub open spec fn pattern_readable(&self) -> bool {
        self.name matches Some(p) ==> p@.len() == 0 || glob_compiles(p@)
    }

    /// What validation answers: the first fault of the settings, if any.
    pub open spec fn validation(&self) -> Result<(), ConfigError> {
        first_fault(self.types@.len() > 0, self.perm_readable(), self.pattern_readable())
    }

    /// Entries of kind `kind` are among those that are reported.
    pub open spec fn type_match(&self, kind: EntryKind) -> bool {
        self.types@.contains(kind.reported_as())
    }

    /// The base name `base` passes the name filter.
    pub open spec fn name_match(&self, base: Option<Seq<char>>) -> bool {
        name_test(chars_of(self.name), self.case_sensitive, base).passes()
    }

    /// The metadata passes the permission filter. Without metadata only the
    /// absent filter is passed.
    pub open spec fn perm_match(&self, meta: Option<Metadata>) -> bool {
        match meta {
            Some(m) => perm_matches(chars_of(self.perm), m.mode),
            None => self.perm is None,
        }
    }

    /// The metadata passes the flag filters. Without metadata they are
    /// passed only when none is asked for.
    pub open spec fn flag_match(&self, meta: Option<Metadata>) -> bool {
        match meta {
            Some(m) => self.flags_match(m.mode, Some(m.uid)),
            None => !self.any_flag(),
        }
    }

    /// The entry is to be reported: its kind, name, permissions and flags
    /// all pass.
    pub open spec fn reports(&self, entry: Entry) -> bool {
        &&& self.type_match(entry.kind)
        &&& self.name_match(entry.name_text())
        &&& self.perm_match(entry.meta)
        &&& self.flag_match(entry.meta)
    }

    /// Looks for what makes the settings unusable: no kind to report, a
    /// permission specifier that cannot be read, a malformed name pattern.
    pub fn validate(&self) -> (r: Result<(), ConfigError>)
        ensures
            r == self.validation(),
            r is Ok <==> self.types@.len() > 0 && self.perm_readable() && self.pattern_readable(),
    {
        let has_types: bool = self.types.len() > 0;
        let perm_ok: bool = match &self.perm {
            Some(p) => PermSpec::parse(p.as_str()).is_some(),
            None => true,
        };
        let pattern_ok: bool = match &self.name {
            Some(p) => p.as_str().is_empty() || pattern_compiles(p.as_str()),
            None => true,
        };
        judge(has_types, perm_ok, pattern_ok)
    }

    /// Whether `mode` satisfies the permission specifier `perm`.
    pub fn matches_perm(&self, perm: &Option<String>, mode: u32) -> (r: bool)
        ensures
            r == perm_matches(chars_of(*perm), mode),
    {
        match perm {
            None => true,
            Some(p) => match PermSpec::parse(p.as_str()) {
                Some(spec) => spec.matches(mode),
                None => false,
            },
        }
    }

    /// Whether the base name `base` passes the name filter. An entry without
    /// a readable base name passes only where no pattern is asked for.
    pub fn matches_name(&self, base: Option<&str>) -> (r: bool)
        ensures
            r == self.name_match(text_of(base)),
            chars_of(self.name) == Some(seq!['*']) && base is Some && is_single_segment(base->0@)
                ==> r,
    {
        let pattern: Option<&str> = match &self.name {
            Some(p) => Some(p.as_str()),
            None => None,
        };
        let tested: NameTest = test_name(pattern, self.case_sensitive, base);
        tested.verdict()
    }

    /// Whether every flag that is asked for holds of an entry with mode
    /// `mode` and owner `owner`.
    pub fn matches_flags(&self, mode: u32, owner: Option<u32>) -> (r: bool)
        ensures
            r == self.flags_match(mode, owner),
            !self.any_flag() ==> r,
    {
        if !(self.suid || self.sgid || self.exec_other || self.owned_by_root) {
            return true;
        }
        if self.suid && mode & SUID_BIT == 0 {
            return false;
        }
        if self.sgid && mode & SGID_BIT == 0 {
            return false;
        }
        if self.exec_other && mode & EXEC_OTHER_BIT == 0 {
            return false;
        }
        if self.owned_by_root && !self.is_owned_by_root(owner) {
            return false;
        }
        true
    }

    /// Whether the owner is user id 0. An unknown owner is not.
    pub fn is_owned_by_root(&self, owner: Option<u32>) -> (r: bool)
        ensures
            r == (owner == Some(0u32)),
    {
        match owner {
            Some(uid) => uid == 0,
            None => false,
        }
    }

    /// Whether entries of kind `kind` are among those that are reported.
    pub fn matches_type(&self, kind: EntryKind) -> (r: bool)
        ensures
            r == self.type_match(kind),
    {
        let wanted: FileType = kind.file_type();
        let mut i: usize = 0;
        while i < self.types.len()
            invariant
                i <= self.types@.len(),
                wanted == kind.reported_as(),
                forall|j: int| 0 <= j < i ==> self.types@[j] != wanted,
            decreases self.types@.len() - i,
        {
            if self.types[i] == wanted {
                assert(self.types@[i as int] == wanted);
                return true;
            }
            i += 1;
        }
        false
    }

    /// Whether the entry is to be reported.
    pub fn matches_all(&self, entry: &Entry) -> (r: bool)
        ensures
            r == self.reports(*entry),
            r == (self.type_match(entry.kind) && self.name_match(entry.name_text())
                && self.perm_match(entry.meta) && self.flag_match(entry.meta)),
    {
        if !self.matches_type(entry.kind) {
            return false;
        }
        let base: Option<&str> = match &entry.name {
            Some(n) => Some(n.as_str()),
            None => None,
        };
        if !self.matches_name(base) {
            return false;
        }
        match entry.meta {
            Some(m) => self.matches_perm(&self.perm, m.mode) && self.matches_flags(
                m.mode,
                Some(m.uid),
            ),
            None => self.perm.is_none() && !(self.suid || self.sgid || self.exec_other
                || self.owned_by_root),
        }
    }
}

/// Without a pattern, or with an empty one, every base name passes the name
/// filter, and so does an entry that has none, whatever the case setting.
pub proof fn lemma_absent_pattern_matches_every_name(args: Args, base: Option<Seq<char>>)
    requires
        args.name is None || args.name->0@.len() == 0,
    ensures
        args.name_match(base),
{
}

/// A malformed pattern lets no entry through, named or not, whatever the
/// case setting.
pub proof fn lemma_malformed_pattern_matches_nothing(args: Args, base: Option<Seq<char>>)
    requires
        !args.pattern_readable(),
    ensures
        !args.name_match(base),
{
}

/// With a permission specifier that cannot be read, no entry is reported.
pub proof fn lemma_unreadable_perm_reports_nothing(args: Args, entry: Entry)
    requires
        !args.perm_readable(),
    ensures
        !args.perm_match(entry.meta),
        !args.reports(entry),
{
}

/// With valid settings that ask for no name, permission or flag, an entry
/// is reported iff its kind is asked for.
pub proof fn lemma_bare_search_reports_by_kind(args: Args, entry: Entry)
    requires
        args.name is None,
        args.perm is None,
        !args.any_flag(),
    ensures
        args.reports(entry) == args.type_match(entry.kind),
{
}

/// The name filter is a function of the pattern, the case setting and the
/// base name: asked again, or by other settings with the same two, it
/// answers the same.
pub proof fn lemma_name_match_is_repeatable(a: Args, b: Args, base: Option<Seq<char>>)
    requires
        chars_of(a.name) == chars_of(b.name),
        a.case_sensitive == b.case_sensitive,
    ensures
        a.name_match(base) == b.name_match(base),
{
}

/// An entry is reported iff its kind, its name, its permissions and its
/// flags each pass.
pub proof fn lemma_report_is_conjunction(args: Args, entry: Entry)
    ensures
        args.reports(entry) <==> args.type_match(entry.kind) && args.name_match(
            entry.name_text(),
        ) && args.perm_match(entry.meta) && args.flag_match(entry.meta),
        !args.type_match(entry.kind) ==> !args.reports(entry),
        !args.name_match(entry.name_text()) ==> !args.reports(entry),
        !args.perm_match(entry.meta) ==> !args.reports(entry),
        !args.flag_match(entry.meta) ==> !args.reports(entry),
{
}

impl Default for Args {
    /// A search from the current directory that reports every entry.
    fn default() -> (r: Args)
        ensures
            r.path@ == seq!['.'],
            r.types@ == seq![FileType::Dir, FileType::File],
            r.name is None,
            r.case_sensitive,
            r.perm is None,
            !r.verbose,
            !r.any_flag(),
    {
        let path: String = ".".to_string();
        proof {
            reveal_strlit(".");
        }
        assert(path@ =~= seq!['.']);
        Args {
            path,
            types: vec![FileType::Dir, FileType::File],
            name: None,
            case_sensitive: true,
            perm: None,
            verbose: false,
            exec_other: false,
            suid: false,
            sgid: false,
            owned_by_root: false,
        }
    }
}

} // verus!
