use crate::digest::DigestError;
use crate::hex::{has_digest_shape, is_hex_digest, lemma_hex_digest_is_ascii};
use vstd::prelude::*;
use vstd::string::*;

verus! {

/// What a [`FileRecord`] says, as plain values.
pub struct FileRecordView {
    /// Base name of the file.
    pub filename: Seq<char>,
    /// Path of the file.
    pub filepath: Seq<char>,
    /// Fingerprint of the file's content.
    pub hash: Seq<char>,
}

/// One scanned file: its base name, its path and the fingerprint of its
/// content. The name is never empty and the hash always has the shape of a
/// fingerprint.
#[derive(Debug)]
pub struct FileRecord {
    filename: String,
    filepath: String,
    hash: String,
}

/// Why three strings do not make a record.
#[derive(Debug, Clone, Copy, PartialEq, Eq, Structural)]
pub enum RecordError {
    /// The file name is empty.
    EmptyFilename,
    /// The hash is not thirty-two lowercase hexadecimal digits.
    MalformedHash,
}

/// Why a file gave no record.
#[derive(Debug, Clone, Copy, PartialEq, Eq, Structural)]
pub enum SkipReason {
    /// Its content could not be read to the end.
    Unreadable(DigestError),
    /// Its name or fingerprint is not fit for a record.
    Invalid(RecordError),
}

impl View for FileRecord {
    type V = FileRecordView;

    closed spec fn view(&self) -> FileRecordView {
        FileRecordView { filename: self.filename@, filepath: self.filepath@, hash: self.hash@ }
    }
}

/// What the records of a list say, in the list's order.
pub open spec fn record_views(records: Seq<FileRecord>) -> Seq<FileRecordView> {
    records.map_values(|r: FileRecord| r@)
}

impl FileRecord {
    #[verifier::type_invariant]
    spec fn well_formed(self) -> bool {
        &&& self.filename@.len() > 0
        &&& is_hex_digest(self.hash@)
    }

    /// Makes a record of a file's base name, path and fingerprint. An empty
    /// name is refused first, then a hash that has not the shape of a
    /// fingerprint.
    pub fn new(filename: String, filepath: String, hash: String) -> (made: Result<
        FileRecord,
        RecordError,
    >)
        ensures
            filename@.len() == 0 ==> made == Err::<FileRecord, RecordError>(
                RecordError::EmptyFilename,
            ),
            filename@.len() > 0 && !is_hex_digest(hash@) ==> made == Err::<
                FileRecord,
                RecordError,
            >(RecordError::MalformedHash),
            filename@.len() > 0 && is_hex_digest(hash@) ==> made is Ok && made->Ok_0@ == (
            FileRecordView { filename: filename@, filepath: filepath@, hash: hash@ }),
    {
        if filename.as_str().is_empty() {
            return Err(RecordError::EmptyFilename);
        }
        if !has_digest_shape(hash.as_str()) {
            return Err(RecordError::MalformedHash);
        }
        Ok(FileRecord { filename, filepath, hash })
    }

    /// The file's base name.
    pub fn filename(&self) -> (s: &str)
        ensures
            s@ == self@.filename,
            s@.len() > 0,
    {
        proof {
            use_type_invariant(self);
        }
        self.filename.as_str()
    }

    /// The file's path.
    pub fn filepath(&self) -> (s: &str)
        ensures
            s@ == self@.filepath,
    {
        self.filepath.as_str()
    }

    /// The fingerprint of the file's content.
    pub fn hash(&self) -> (s: &str)
        ensures
            s@ == self@.hash,
            is_hex_digest(s@),
            is_ascii(s),
    {
        proof {
            use_type_invariant(self);
            lemma_hex_digest_is_ascii(self.hash@);
        }
        self.hash.as_str()
    }

    /// Whether this record's fingerprint is `hash`.
    pub fn has_hash(&self, hash: &String) -> (same: bool)
        ensures
            same == (self@.hash == hash@),
    {
        self.hash == *hash
    }

    /// A copy of the record's fingerprint.
    pub fn hash_owned(&self) -> (h: String)
        ensures
            h@ == self@.hash,
            is_hex_digest(h@),
    {
        proof {
            use_type_invariant(self);
        }
        self.hash.clone()
    }

    /// A record that says the same.
    pub fn duplicate(&self) -> (copy: FileRecord)
        ensures
            copy@ == self@,
    {
        proof {
            use_type_invariant(self);
        }
        FileRecord {
            filename: self.filename.clone(),
            filepath: self.filepath.clone(),
            hash: self.hash.clone(),
        }
    }
}

/// Makes the record of a file from its base name, its path and what the
/// digest of its content gave. A file without a fingerprint gives no record,
/// so that nothing computed from a part of a file is ever kept; neither does
/// one whose name is empty.
pub fn record_for(filename: String, filepath: String, digest: Result<String, DigestError>) -> (made:
    Result<FileRecord, SkipReason>)
    ensures
        match digest {
            Err(e) => made == Err::<FileRecord, SkipReason>(SkipReason::Unreadable(e)),
            Ok(hash) => {
                if filename@.len() == 0 {
                    made == Err::<FileRecord, SkipReason>(
                        SkipReason::Invalid(RecordError::EmptyFilename),
                    )
                } else if !is_hex_digest(hash@) {
                    made == Err::<FileRecord, SkipReason>(
                        SkipReason::Invalid(RecordError::MalformedHash),
                    )
                } else {
                    made is Ok && made->Ok_0@ == (FileRecordView {
                        filename: filename@,
                        filepath: filepath@,
                        hash: hash@,
                    })
                }
            },
        },
{
    match digest {
        Err(e) => Err(SkipReason::Unreadable(e)),
        Ok(hash) => match FileRecord::new(filename, filepath, hash) {
            Ok(record) => Ok(record),
            Err(e) => Err(SkipReason::Invalid(e)),
        },
    }
}

} // verus!
