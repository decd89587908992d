//! The policy knobs that govern destructive actions during a sync, each
//! resolved to prompt, error, skip, or proceed, and the parsing of their
//! textual names as they appear in a spec file.

use vstd::prelude::*;

verus! {

use vstd::string::StrSliceExecFns;

/// Whether two characters are equal up to ASCII case.
pub open spec fn spec_char_eq_nocase(a: char, b: char) -> bool {
    ||| a == b
    ||| (is_ascii_letter(a) && is_ascii_letter(b) && (a as u32 | 0x20) == (b as u32 | 0x20))
}

/// Whether a character is an ASCII letter.
pub open spec fn is_ascii_letter(c: char) -> bool {
    ('a' <= c && c <= 'z') || ('A' <= c && c <= 'Z')
}

/// Whether two strings are equal up to ASCII case.
pub open spec fn spec_str_eq_nocase(a: Seq<char>, b: Seq<char>) -> bool {
    a.len() == b.len() && forall|i: int|
        0 <= i < a.len() ==> spec_char_eq_nocase(#[trigger] a[i], b[i])
}

/// Case-insensitive comparison of a value against a keyword.
pub fn str_eq_nocase(a: &str, b: &str) -> (r: bool)
    ensures
        r == spec_str_eq_nocase(a@, b@),
{
    let an = a.unicode_len();
    let bn = b.unicode_len();
    if an != bn {
        return false;
    }
    let mut i: usize = 0;
    while i < an
        invariant
            0 <= i <= an,
            an == a@.len(),
            an == b@.len(),
            forall|k: int| 0 <= k < i ==> spec_char_eq_nocase(#[trigger] a@[k], b@[k]),
        decreases an - i,
    {
        let ca = a.get_char(i);
        let cb = b.get_char(i);
        let same = if ca == cb {
            true
        } else {
            let la = ca <= 'z' && ca >= 'a' || ca <= 'Z' && ca >= 'A';
            let lb = cb <= 'z' && cb >= 'a' || cb <= 'Z' && cb >= 'A';
            la && lb && (ca as u32 | 0x20) == (cb as u32 | 0x20)
        };
        if !same {
            return false;
        }
        i += 1;
    }
    true
}

/// Behaviour for deploying the tool to remote targets whose copy is missing
/// or incompatible.
#[derive(Clone, Copy, Debug, PartialEq, Eq, PartialOrd, Ord, Structural)]
pub enum DeployBehaviour {
    /// The user will be asked what to do if a deploy is needed.
    /// (In a non-interactive environment, this is equivalent to 'error')
    Prompt,
    /// Deploying is not allowed and will instead raise an error if it is
    /// required, and the sync will not happen.
    Error,
    /// The tool will be deployed as necessary.
    Okay,
    /// The tool will be deployed regardless if the remote target already
    /// has an up-to-date version.
    Force,
}

/// Behaviour when a file exists on both sides and the destination copy
/// would be overwritten.
#[derive(Clone, Copy, Debug, PartialEq, Eq, PartialOrd, Ord, Structural)]
pub enum DestFileUpdateBehaviour {
    /// The user will be asked what to do. (In a non-interactive
    /// environment, this is equivalent to 'error')
    Prompt,
    /// An error will be raised, the sync will stop and the destination file
    /// will not be overwritten.
    Error,
    /// The destination file will not be modified and the rest of the sync
    /// will continue.
    Skip,
    /// The destination file will be overwritten and the rest of the sync
    /// will continue.
    Overwrite,
}

/// Behaviour when a file/folder/symlink on the destination side needs to be
/// deleted.
#[derive(Clone, Copy, Debug, PartialEq, Eq, PartialOrd, Ord, Structural)]
pub enum DestEntryNeedsDeletingBehaviour {
    /// The user will be asked what to do. (In a non-interactive
    /// environment, this is equivalent to 'error')
    Prompt,
    /// An error will be raised, the sync will stop and the destination
    /// entry will not be deleted.
    Error,
    /// The destination entry will not be deleted and the rest of the sync
    /// will continue.  Note that this choice may lead to later errors, as
    /// the entry that needed deleting might be preventing something else
    /// from being copied there.
    Skip,
    /// The destination entry will be deleted and the rest of the sync will
    /// continue.
    Delete,
}

/// Behaviour when the entire root path on the destination needs to be
/// deleted and replaced wholesale.
#[derive(Clone, Copy, Debug, PartialEq, Eq, PartialOrd, Ord, Structural)]
pub enum DestRootNeedsDeletingBehaviour {
    /// The user will be asked what to do. (In a non-interactive
    /// environment, this is equivalent to 'error')
    Prompt,
    /// An error will be raised, the sync will stop and the destination will
    /// not be changed.
    Error,
    /// The destination root will not be deleted and the sync will stop, but
    /// no error will be raised: the run still reports success even though
    /// nothing has been synced.
    Skip,
    /// The destination root will be deleted and the rest of the sync will
    /// continue.
    Delete,
}

/// Behaviour applied across every destructive knob at once, as a safety
/// convenience.
#[derive(Clone, Copy, Debug, PartialEq, Eq, PartialOrd, Ord, Structural)]
pub enum AllDestructiveBehaviour {
    /// The user will be asked what to do. (In a non-interactive
    /// environment, this is equivalent to 'error')
    Prompt,
    /// An error will be raised, the sync will stop and the destructive
    /// action will not take place.
    Error,
    /// The destructive action will not take place and the rest of the sync
    /// will continue, if possible.
    Skip,
    /// The destructive action will take place and the rest of the sync will
    /// continue.
    Proceed,
}

/// The textual names of [`DestFileUpdateBehaviour`], matched without regard
/// to ASCII case.
pub open spec fn spec_parse_file_update(s: Seq<char>) -> Option<DestFileUpdateBehaviour> {
    if spec_str_eq_nocase(s, "prompt"@) {
        Some(DestFileUpdateBehaviour::Prompt)
    } else if spec_str_eq_nocase(s, "error"@) {
        Some(DestFileUpdateBehaviour::Error)
    } else if spec_str_eq_nocase(s, "skip"@) {
        Some(DestFileUpdateBehaviour::Skip)
    } else if spec_str_eq_nocase(s, "overwrite"@) {
        Some(DestFileUpdateBehaviour::Overwrite)
    } else {
        None
    }
}

/// The error reported for a name that is no variant.
pub open spec fn spec_invalid_variant(s: Seq<char>) -> Seq<char> {
    "invalid variant: "@ + s
}

fn invalid_variant(s: &str) -> (r: String)
    ensures
        r@ == spec_invalid_variant(s@),
{
    let mut msg = "invalid variant: ".to_owned();
    msg.append(s);
    msg
}

impl DestFileUpdateBehaviour {
    /// Parses the textual name of a variant, ignoring ASCII case.
    pub fn from_str(s: &str) -> (r: Result<Self, String>)
        ensures
            match spec_parse_file_update(s@) {
                Some(v) => r matches Ok(b) && b == v,
                None => r matches Err(e) && e@ == spec_invalid_variant(s@),
            },
    {
        if str_eq_nocase(s, "prompt") {
            Ok(DestFileUpdateBehaviour::Prompt)
        } else if str_eq_nocase(s, "error") {
            Ok(DestFileUpdateBehaviour::Error)
        } else if str_eq_nocase(s, "skip") {
            Ok(DestFileUpdateBehaviour::Skip)
        } else if str_eq_nocase(s, "overwrite") {
            Ok(DestFileUpdateBehaviour::Overwrite)
        } else {
            Err(invalid_variant(s))
        }
    }
}

/// The textual names of [`DestEntryNeedsDeletingBehaviour`].
pub open spec fn spec_parse_entry_deleting(s: Seq<char>) -> Option<
    DestEntryNeedsDeletingBehaviour,
> {
    if spec_str_eq_nocase(s, "prompt"@) {
        Some(DestEntryNeedsDeletingBehaviour::Prompt)
    } else if spec_str_eq_nocase(s, "error"@) {
        Some(DestEntryNeedsDeletingBehaviour::Error)
    } else if spec_str_eq_nocase(s, "skip"@) {
        Some(DestEntryNeedsDeletingBehaviour::Skip)
    } else if spec_str_eq_nocase(s, "delete"@) {
        Some(DestEntryNeedsDeletingBehaviour::Delete)
    } else {
        None
    }
}

impl DestEntryNeedsDeletingBehaviour {
    /// Parses the textual name of a variant, ignoring ASCII case.
    pub fn from_str(s: &str) -> (r: Result<Self, String>)
        ensures
            match spec_parse_entry_deleting(s@) {
                Some(v) => r matches Ok(b) && b == v,
                None => r matches Err(e) && e@ == spec_invalid_variant(s@),
            },
    {
        if str_eq_nocase(s, "prompt") {
            Ok(DestEntryNeedsDeletingBehaviour::Prompt)
        } else if str_eq_nocase(s, "error") {
            Ok(DestEntryNeedsDeletingBehaviour::Error)
        } else if str_eq_nocase(s, "skip") {
            Ok(DestEntryNeedsDeletingBehaviour::Skip)
        } else if str_eq_nocase(s, "delete") {
            Ok(DestEntryNeedsDeletingBehaviour::Delete)
        } else {
            Err(invalid_variant(s))
        }
    }
}

/// The textual names of [`DestRootNeedsDeletingBehaviour`].
pub open spec fn spec_parse_root_deleting(s: Seq<char>) -> Option<DestRootNeedsDeletingBehaviour> {
    if spec_str_eq_nocase(s, "prompt"@) {
        Some(DestRootNeedsDeletingBehaviour::Prompt)
    } else if spec_str_eq_nocase(s, "error"@) {
        Some(DestRootNeedsDeletingBehaviour::Error)
    } else if spec_str_eq_nocase(s, "skip"@) {
        Some(DestRootNeedsDeletingBehaviour::Skip)
    } else if spec_str_eq_nocase(s, "delete"@) {
        Some(DestRootNeedsDeletingBehaviour::Delete)
    } else {
        None
    }
}

impl DestRootNeedsDeletingBehaviour {
    /// Parses the textual name of a variant, ignoring ASCII case.
    pub fn from_str(s: &str) -> (r: Result<Self, String>)
        ensures
            match spec_parse_root_deleting(s@) {
                Some(v) => r matches Ok(b) && b == v,
                None => r matches Err(e) && e@ == spec_invalid_variant(s@),
            },
    {
        if str_eq_nocase(s, "prompt") {
            Ok(DestRootNeedsDeletingBehaviour::Prompt)
        } else if str_eq_nocase(s, "error") {
            Ok(DestRootNeedsDeletingBehaviour::Error)
        } else if str_eq_nocase(s, "skip") {
            Ok(DestRootNeedsDeletingBehaviour::Skip)
        } else if str_eq_nocase(s, "delete") {
            Ok(DestRootNeedsDeletingBehaviour::Delete)
        } else {
            Err(invalid_variant(s))
        }
    }
}

/// The textual names of [`DeployBehaviour`].
pub open spec fn spec_parse_deploy(s: Seq<char>) -> Option<DeployBehaviour> {
    if spec_str_eq_nocase(s, "prompt"@) {
        Some(DeployBehaviour::Prompt)
    } else if spec_str_eq_nocase(s, "error"@) {
        Some(DeployBehaviour::Error)
    } else if spec_str_eq_nocase(s, "ok"@) {
        Some(DeployBehaviour::Okay)
    } else if spec_str_eq_nocase(s, "force"@) {
        Some(DeployBehaviour::Force)
    } else {
        None
    }
}

impl DeployBehaviour {
    /// Parses the textual name of a variant, ignoring ASCII case.
    pub fn from_str(s: &str) -> (r: Result<Self, String>)
        ensures
            match spec_parse_deploy(s@) {
                Some(v) => r matches Ok(b) && b == v,
                None => r matches Err(e) && e@ == spec_invalid_variant(s@),
            },
    {
        if str_eq_nocase(s, "prompt") {
            Ok(DeployBehaviour::Prompt)
        } else if str_eq_nocase(s, "error") {
            Ok(DeployBehaviour::Error)
        } else if str_eq_nocase(s, "ok") {
            Ok(DeployBehaviour::Okay)
        } else if str_eq_nocase(s, "force") {
            Ok(DeployBehaviour::Force)
        } else {
            Err(invalid_variant(s))
        }
    }
}

impl AllDestructiveBehaviour {
    /// The file-update behaviour this blanket choice stands for.
    pub fn as_file_update(&self) -> (r: DestFileUpdateBehaviour)
        ensures
            r == spec_all_as_file_update(*self),
    {
        match self {
            AllDestructiveBehaviour::Prompt => DestFileUpdateBehaviour::Prompt,
            AllDestructiveBehaviour::Error => DestFileUpdateBehaviour::Error,
            AllDestructiveBehaviour::Skip => DestFileUpdateBehaviour::Skip,
            AllDestructiveBehaviour::Proceed => DestFileUpdateBehaviour::Overwrite,
        }
    }

    /// The entry-deleting behaviour this blanket choice stands for.
    pub fn as_entry_deleting(&self) -> (r: DestEntryNeedsDeletingBehaviour)
        ensures
            r == spec_all_as_entry_deleting(*self),
    {
        match self {
            AllDestructiveBehaviour::Prompt => DestEntryNeedsDeletingBehaviour::Prompt,
            AllDestructiveBehaviour::Error => DestEntryNeedsDeletingBehaviour::Error,
            AllDestructiveBehaviour::Skip => DestEntryNeedsDeletingBehaviour::Skip,
            AllDestructiveBehaviour::Proceed => DestEntryNeedsDeletingBehaviour::Delete,
        }
    }

    /// The root-deleting behaviour this blanket choice stands for.
    pub fn as_root_deleting(&self) -> (r: DestRootNeedsDeletingBehaviour)
        ensures
            r == spec_all_as_root_deleting(*self),
    {
        match self {
            AllDestructiveBehaviour::Prompt => DestRootNeedsDeletingBehaviour::Prompt,
            AllDestructiveBehaviour::Error => DestRootNeedsDeletingBehaviour::Error,
            AllDestructiveBehaviour::Skip => DestRootNeedsDeletingBehaviour::Skip,
            AllDestructiveBehaviour::Proceed => DestRootNeedsDeletingBehaviour::Delete,
        }
    }
}

/// The file-update behaviour each blanket choice stands for.
pub open spec fn spec_all_as_file_update(b: AllDestructiveBehaviour) -> DestFileUpdateBehaviour {
    match b {
        AllDestructiveBehaviour::Prompt => DestFileUpdateBehaviour::Prompt,
        AllDestructiveBehaviour::Error => DestFileUpdateBehaviour::Error,
        AllDestructiveBehaviour::Skip => DestFileUpdateBehaviour::Skip,
        AllDestructiveBehaviour::Proceed => DestFileUpdateBehaviour::Overwrite,
    }
}

/// The entry-deleting behaviour each blanket choice stands for.
pub open spec fn spec_all_as_entry_deleting(b: AllDestructiveBehaviour) -> DestEntryNeedsDeletingBehaviour {
    match b {
        AllDestructiveBehaviour::Prompt => DestEntryNeedsDeletingBehaviour::Prompt,
        AllDestructiveBehaviour::Error => DestEntryNeedsDeletingBehaviour::Error,
        AllDestructiveBehaviour::Skip => DestEntryNeedsDeletingBehaviour::Skip,
        AllDestructiveBehaviour::Proceed => DestEntryNeedsDeletingBehaviour::Delete,
    }
}

/// The root-deleting behaviour each blanket choice stands for.
pub open spec fn spec_all_as_root_deleting(b: AllDestructiveBehaviour) -> DestRootNeedsDeletingBehaviour {
    match b {
        AllDestructiveBehaviour::Prompt => DestRootNeedsDeletingBehaviour::Prompt,
        AllDestructiveBehaviour::Error => DestRootNeedsDeletingBehaviour::Error,
        AllDestructiveBehaviour::Skip => DestRootNeedsDeletingBehaviour::Skip,
        AllDestructiveBehaviour::Proceed => DestRootNeedsDeletingBehaviour::Delete,
    }
}

} // verus!
