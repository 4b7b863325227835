//! Authorship logs: what the note of a commit says about who wrote its lines.
use vstd::prelude::*;

use crate::string_map::StringMap;
use crate::views::Duplicate;

verus! {

/// A line, or the lines from one to another.
#[derive(Clone, Copy, Debug)]
pub enum LineRange {
    Single(u32),
    Range(u32, u32),
}

impl DeepView for LineRange {
    type V = LineRange;

    open spec fn deep_view(&self) -> LineRange {
        *self
    }
}

impl LineRange {
    /// The first line.
    pub open spec fn start(self) -> int {
        match self {
            LineRange::Single(line) => line as int,
            LineRange::Range(start, _) => start as int,
        }
    }

    /// The last line.
    pub open spec fn end(self) -> int {
        match self {
            LineRange::Single(line) => line as int,
            LineRange::Range(_, end) => end as int,
        }
    }
}

/// The lines of a file that one author wrote. `hash` stands for the author.
pub struct AttestationEntry {
    pub hash: String,
    pub line_ranges: Vec<LineRange>,
}

pub struct AttestationEntryView {
    pub hash: Seq<char>,
    pub line_ranges: Seq<LineRange>,
}

impl DeepView for AttestationEntry {
    type V = AttestationEntryView;

    open spec fn deep_view(&self) -> AttestationEntryView {
        AttestationEntryView { hash: self.hash@, line_ranges: self.line_ranges@ }
    }
}

impl AttestationEntry {
    pub fn new(hash: String, line_ranges: Vec<LineRange>) -> (entry: Self)
        ensures
            entry.hash == hash,
            entry.line_ranges == line_ranges,
    {
        AttestationEntry { hash, line_ranges }
    }
}

/// Who wrote which lines of a file.
pub struct FileAttestation {
    pub file_path: String,
    pub entries: Vec<AttestationEntry>,
}

pub struct FileAttestationView {
    pub file_path: Seq<char>,
    pub entries: Seq<AttestationEntryView>,
}

impl DeepView for FileAttestation {
    type V = FileAttestationView;

    open spec fn deep_view(&self) -> FileAttestationView {
        FileAttestationView { file_path: self.file_path@, entries: self.entries.deep_view() }
    }
}

impl FileAttestation {
    /// An attestation without entries.
    pub fn new(file_path: String) -> (attestation: Self)
        ensures
            attestation.file_path == file_path,
            attestation.entries@ == Seq::<AttestationEntry>::empty(),
    {
        FileAttestation { file_path, entries: Vec::new() }
    }

    /// Adds an entry behind the others.
    pub fn add_entry(&mut self, entry: AttestationEntry)
        ensures
            final(self).file_path == old(self).file_path,
            final(self).entries@ == old(self).entries@.push(entry),
    {
        self.entries.push(entry);
    }
}

/// A prompt that produced lines, as the text in which notes and working logs keep it.
#[derive(Debug)]
pub struct PromptRecord {
    pub record: String,
}

/// An agent session, as the text in which notes and working logs keep it.
#[derive(Debug)]
pub struct SessionRecord {
    pub record: String,
}

/// A human author, as the text in which notes and working logs keep it.
#[derive(Debug)]
pub struct HumanRecord {
    pub record: String,
}

impl DeepView for PromptRecord {
    type V = Seq<char>;

    open spec fn deep_view(&self) -> Seq<char> {
        self.record@
    }
}

impl DeepView for SessionRecord {
    type V = Seq<char>;

    open spec fn deep_view(&self) -> Seq<char> {
        self.record@
    }
}

impl DeepView for HumanRecord {
    type V = Seq<char>;

    open spec fn deep_view(&self) -> Seq<char> {
        self.record@
    }
}

impl Duplicate for PromptRecord {
    fn duplicate(&self) -> (copy: Self) {
        PromptRecord { record: self.record.clone() }
    }
}

impl Duplicate for SessionRecord {
    fn duplicate(&self) -> (copy: Self) {
        SessionRecord { record: self.record.clone() }
    }
}

impl Duplicate for HumanRecord {
    fn duplicate(&self) -> (copy: Self) {
        HumanRecord { record: self.record.clone() }
    }
}

/// The records that the hashes of an authorship log stand for.
pub struct AuthorshipMetadata {
    pub prompts: StringMap<PromptRecord>,
    pub sessions: StringMap<SessionRecord>,
    pub humans: StringMap<HumanRecord>,
}

/// The authorship log of a commit.
pub struct AuthorshipLog {
    pub attestations: Vec<FileAttestation>,
    pub metadata: AuthorshipMetadata,
}

pub struct AuthorshipLogView {
    pub attestations: Seq<FileAttestationView>,
    pub prompts: Map<Seq<char>, Seq<char>>,
    pub sessions: Map<Seq<char>, Seq<char>>,
    pub humans: Map<Seq<char>, Seq<char>>,
}

impl DeepView for AuthorshipLog {
    type V = AuthorshipLogView;

    open spec fn deep_view(&self) -> AuthorshipLogView {
        AuthorshipLogView {
            attestations: self.attestations.deep_view(),
            prompts: self.metadata.prompts@,
            sessions: self.metadata.sessions@,
            humans: self.metadata.humans@,
        }
    }
}

impl Duplicate for LineRange {
    fn duplicate(&self) -> (copy: Self) {
        *self
    }
}

impl Duplicate for AttestationEntry {
    fn duplicate(&self) -> (copy: Self) {
        let line_ranges = self.line_ranges.duplicate();
        assert(line_ranges.deep_view() =~= line_ranges@);
        assert(self.line_ranges.deep_view() =~= self.line_ranges@);
        AttestationEntry { hash: self.hash.clone(), line_ranges }
    }
}

impl Duplicate for FileAttestation {
    fn duplicate(&self) -> (copy: Self) {
        FileAttestation { file_path: self.file_path.clone(), entries: self.entries.duplicate() }
    }
}

impl Duplicate for AuthorshipLog {
    fn duplicate(&self) -> (copy: Self) {
        AuthorshipLog {
            attestations: self.attestations.duplicate(),
            metadata: AuthorshipMetadata {
                prompts: self.metadata.prompts.duplicate(),
                sessions: self.metadata.sessions.duplicate(),
                humans: self.metadata.humans.duplicate(),
            },
        }
    }
}

impl AuthorshipLog {
    /// A log that says nothing.
    pub fn new() -> (log: Self)
        ensures
            log.attestations@ == Seq::<FileAttestation>::empty(),
            log.metadata.prompts@ == Map::<Seq<char>, Seq<char>>::empty(),
            log.metadata.sessions@ == Map::<Seq<char>, Seq<char>>::empty(),
            log.metadata.humans@ == Map::<Seq<char>, Seq<char>>::empty(),
    {
        AuthorshipLog {
            attestations: Vec::new(),
            metadata: AuthorshipMetadata {
                prompts: StringMap::new(),
                sessions: StringMap::new(),
                humans: StringMap::new(),
            },
        }
    }
}

} // verus!
