use vstd::prelude::*;
use vstd::string::*;

verus! {

/// What kind of thing a traversal entry is.
#[derive(Debug, Clone, Copy, PartialEq, Eq, Structural)]
pub enum EntryKind {
    /// A regular file.
    File,
    /// A directory.
    Directory,
    /// Anything else: a symbolic link, a device, a socket.
    Other,
}

/// What the traversal does with an entry.
#[derive(Debug, Clone, Copy, PartialEq, Eq, Structural)]
pub enum Decision {
    /// Fingerprint the file and record it.
    Process,
    /// Leave the entry alone.
    Skip,
    /// Descend into the directory.
    Recurse,
}

/// Whether `needle` stands in `hay` from position `i` on.
pub open spec fn occurs_at(hay: Seq<u8>, needle: Seq<u8>, i: int) -> bool {
    &&& 0 <= i
    &&& i + needle.len() <= hay.len()
    &&& hay.subrange(i, i + needle.len()) == needle
}

/// Whether `needle` stands somewhere in `hay` as a contiguous run.
pub open spec fn contains_bytes(hay: Seq<u8>, needle: Seq<u8>) -> bool {
    exists|i: int| occurs_at(hay, needle, i)
}

/// The bytes of `.git`, which marks version-control metadata.
pub open spec fn git_marker() -> Seq<u8> {
    seq![0x2eu8, 0x67u8, 0x69u8, 0x74u8]
}

/// The bytes of `/target/`, which marks build output.
pub open spec fn target_marker() -> Seq<u8> {
    seq![0x2fu8, 0x74u8, 0x61u8, 0x72u8, 0x67u8, 0x65u8, 0x74u8, 0x2fu8]
}

/// The bytes of `.idea/`, which marks IDE configuration.
pub open spec fn idea_marker() -> Seq<u8> {
    seq![0x2eu8, 0x69u8, 0x64u8, 0x65u8, 0x61u8, 0x2fu8]
}

/// Whether a path, given by its bytes, holds one of the excluded markers
/// anywhere. The test is plain containment, not a match on whole path
/// segments.
pub open spec fn is_denied(path: Seq<u8>) -> bool {
    ||| contains_bytes(path, git_marker())
    ||| contains_bytes(path, target_marker())
    ||| contains_bytes(path, idea_marker())
}

/// The decision for an entry with the given path bytes and kind.
pub open spec fn decision_for(path: Seq<u8>, kind: EntryKind) -> Decision {
    if is_denied(path) {
        Decision::Skip
    } else {
        match kind {
            EntryKind::File => Decision::Process,
            EntryKind::Directory => Decision::Recurse,
            EntryKind::Other => Decision::Skip,
        }
    }
}

fn matches_at(hay: &[u8], needle: &[u8], i: usize) -> (found: bool)
    requires
        i + needle@.len() <= hay@.len(),
    ensures
        found == occurs_at(hay@, needle@, i as int),
{
    let hay_len = hay.len();
    let mut j: usize = 0;
    while j < needle.len()
        invariant
            j <= needle@.len(),
            i + needle@.len() <= hay@.len(),
            hay@.len() == hay_len,
            forall|k: int| 0 <= k < j ==> hay@[i + k] == #[trigger] needle@[k],
        decreases needle.len() - j,
    {
        if hay[i + j] != needle[j] {
            assert(hay@.subrange(i as int, i + needle@.len())[j as int] != needle@[j as int]);
            return false;
        }
        j += 1;
    }
    assert(hay@.subrange(i as int, i + needle@.len()) =~= needle@);
    true
}

/// Tells whether `needle` stands somewhere in `hay` as a contiguous run.
pub fn contains_pattern(hay: &[u8], needle: &[u8]) -> (found: bool)
    ensures
        found == contains_bytes(hay@, needle@),
{
    if needle.len() > hay.len() {
        return false;
    }
    let last = hay.len() - needle.len();
    let mut i: usize = 0;
    loop
        invariant
            i <= last,
            last + needle@.len() == hay@.len(),
            forall|k: int| 0 <= k < i ==> !occurs_at(hay@, needle@, k),
        decreases last - i,
    {
        if matches_at(hay, needle, i) {
            return true;
        }
        if i == last {
            return false;
        }
        i += 1;
    }
}

/// Decides what the traversal does with the entry at `path`: an entry whose
/// path holds an excluded marker is skipped whatever it is; of the others a
/// regular file is processed, a directory is descended into and anything
/// else is skipped.
pub fn classify(path: &str, kind: EntryKind) -> (decision: Decision)
    ensures
        decision == decision_for(path.spec_bytes(), kind),
{
    broadcast use is_ascii_spec_bytes;

    let bytes = path.as_bytes();
    let git = ".git";
    let target = "/target/";
    let idea = ".idea/";
    proof {
        reveal_strlit(".git");
        reveal_strlit("/target/");
        reveal_strlit(".idea/");
        assert(is_ascii(git));
        assert(is_ascii(target));
        assert(is_ascii(idea));
        assert(git.spec_bytes() =~= git_marker());
        assert(target.spec_bytes() =~= target_marker());
        assert(idea.spec_bytes() =~= idea_marker());
    }
    if contains_pattern(bytes, git.as_bytes()) || contains_pattern(bytes, target.as_bytes())
        || contains_pattern(bytes, idea.as_bytes()) {
        Decision::Skip
    } else {
        match kind {
            EntryKind::File => Decision::Process,
            EntryKind::Directory => Decision::Recurse,
            EntryKind::Other => Decision::Skip,
        }
    }
}

/// A path that holds `.git`, `/target/` or `.idea/` anywhere is skipped,
/// whatever kind of entry it names.
pub proof fn lemma_marked_path_is_skipped(path: Seq<u8>, kind: EntryKind)
    requires
        contains_bytes(path, git_marker()) || contains_bytes(path, target_marker())
            || contains_bytes(path, idea_marker()),
    ensures
        decision_for(path, kind) == Decision::Skip,
{
}

/// A regular file whose path holds none of the excluded markers is
/// processed.
pub proof fn lemma_unmarked_file_is_processed(path: Seq<u8>)
    requires
        !contains_bytes(path, git_marker()),
        !contains_bytes(path, target_marker()),
        !contains_bytes(path, idea_marker()),
    ensures
        decision_for(path, EntryKind::File) == Decision::Process,
{
}

} // verus!
