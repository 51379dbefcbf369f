//! The decisions of a download.
//!
//! [`Fetch`] says what to do next; whoever drives it does that and reports back.
//! Only when the length, the hash and the tensor table agree does the `.part`
//! file take its real name, so an interrupted fetch can never be mistaken for a
//! complete one.

use crate::hub::{hex_of, opt_chars, sha256, Hasher, Remote};
use crate::text;
use vstd::prelude::*;

verus! {

/// What to do next.
#[derive(Debug)]
pub enum Ask {
    /// Find out how long the file under the final name is, if it exists.
    DestLength,
    /// Hash the file under the final name.
    HashDest,
    /// Look for a file of the right length under another name.
    FindTwin,
    /// Hash the file that was found.
    HashTwin,
    /// Link the file that was found to the final name.
    LinkTwin,
    /// Find out how long the partial file is, if it exists.
    PartLength,
    /// Read this many bytes of the partial file, handing them over.
    ReadPart { upto: u64 },
    /// Open the partial file for appending, cut to this length.
    OpenPart { len: u64 },
    /// Ask the server for the bytes from here on.
    Get { from: u64 },
    /// Cut the partial file to nothing.
    RestartPart,
    /// Append the reply's bytes to the partial file, handing them over.
    ReadBody,
    /// Flush the partial file and find out its length.
    SyncPart,
    /// Parse the partial file's tensor table.
    ParsePart,
    /// Give the partial file its real name.
    RenamePart,
    Done { already_had_it: bool },
    Fail(FetchError),
}

#[derive(Debug)]
pub enum FetchError {
    /// A file of another length is there: what a truncated download looks like.
    WrongLength { have: u64, want: u64 },
    /// A file of the right length is there with another hash.
    OtherFile { got: String, want: String },
    /// The server refused.
    Status(u16),
    /// The transfer ended early; the partial file is kept.
    Short { got: u64, want: u64 },
    /// The bytes are not what the server published; the partial file is kept.
    HashMismatch { got: String, want: String },
    /// The file does not parse.
    NotGguf,
}

/// What became of what was asked.
#[derive(Debug)]
pub enum Told {
    Length(Option<u64>),
    Hash(String),
    Found(bool),
    Status(u16),
    Parsed(bool),
    Did,
}

#[derive(Debug, Clone, Copy, PartialEq, Eq, Structural)]
pub enum Stage {
    Dest,
    DestHash,
    Twin,
    TwinHash,
    Link,
    Part,
    ReadPart,
    Open,
    Get,
    Restart,
    Body,
    Sync,
    Parse,
    Rename,
    Over,
}

/// A download.
pub struct Fetch {
    pub size: u64,
    pub sha256: Option<String>,
    pub is_gguf: bool,
    pub force: bool,
    pub verify: bool,
    pub adopt: bool,
    pub stage: Stage,
    /// What the partial file holds has gone through here.
    pub hasher: Hasher,
    /// Bytes of the partial file.
    pub have: u64,
    /// Length of the finished file.
    pub got: u64,
}

pub open spec fn is_suffix(s: Seq<char>, suffix: Seq<char>) -> bool {
    text::matches_at(s, s.len() - suffix.len(), suffix)
}

/// The answer that each stage waits for.
pub open spec fn answers(stage: Stage, told: Told) -> bool {
    match stage {
        Stage::Dest => told is Length,
        Stage::DestHash => told is Hash,
        Stage::Twin => told is Found,
        Stage::TwinHash => told is Hash,
        Stage::Link => told is Did,
        Stage::Part => told is Length,
        Stage::ReadPart => told is Did,
        Stage::Open => told is Did,
        Stage::Get => told is Status,
        Stage::Restart => told is Did,
        Stage::Body => told is Did,
        Stage::Sync => told matches Told::Length(Some(_)),
        Stage::Parse => told is Parsed,
        Stage::Rename => told is Did,
        Stage::Over => false,
    }
}

impl Fetch {
    pub open spec fn want(&self) -> Option<Seq<char>> {
        opt_chars(self.sha256)
    }

    /// The hash of what the partial file holds.
    pub open spec fn digest(&self) -> Seq<char> {
        hex_of(sha256(self.hasher.bytes()))
    }

    /// The length is the published one, where one was published.
    pub open spec fn length_ok(&self) -> bool {
        self.size == 0 || self.got == self.size
    }

    /// The hash is the published one, where one was published and is checked.
    pub open spec fn hash_ok(&self) -> bool {
        self.verify && self.sha256 is Some ==> self.want() == Some(self.digest())
    }

    /// Before the tensor table is parsed, and before the file gets its name, the
    /// length and the hash have been checked. Comparing hashes takes a published
    /// one.
    pub open spec fn wf(&self) -> bool {
        &&& self.stage == Stage::Parse || self.stage == Stage::Rename ==> self.length_ok()
            && self.hash_ok()
        &&& self.stage == Stage::DestHash || self.stage == Stage::TwinHash ==> self.sha256 is Some
    }

    /// Nothing but the stage differs.
    pub open spec fn moved(&self, to: Fetch, stage: Stage) -> bool {
        to == (Fetch { stage, ..*self })
    }

    /// Start a download of `remote`.
    pub fn new(remote: &Remote, force: bool, verify: bool, adopt: bool) -> (r: (Fetch, Ask))
        ensures
            r.0.wf(),
            r.0.size == remote.size,
            r.0.want() == opt_chars(remote.sha256),
            r.0.is_gguf == is_suffix(remote.filename@, ".gguf"@),
            r.0.force == force && r.0.verify == verify && r.0.adopt == adopt,
            r.0.have == 0,
            r.0.hasher.bytes() == Seq::<u8>::empty(),
            if force {
                r.0.stage == Stage::Open && r.1 == (Ask::OpenPart { len: 0 })
            } else {
                r.0.stage == Stage::Dest && r.1 == Ask::DestLength
            },
    {
        let sha256 = match &remote.sha256 {
            Some(s) => Some(s.clone()),
            None => None,
        };
        let is_gguf: bool = match text::strip_suffix(remote.filename.as_str(), ".gguf") {
            Some(_) => true,
            None => false,
        };
        let stage = if force {
            Stage::Open
        } else {
            Stage::Dest
        };
        let ask = if force {
            Ask::OpenPart { len: 0 }
        } else {
            Ask::DestLength
        };
        (
            Fetch {
                size: remote.size,
                sha256,
                is_gguf,
                force,
                verify,
                adopt,
                stage,
                hasher: Hasher::new(),
                have: 0,
                got: 0,
            },
            ask,
        )
    }

    /// Hand over bytes of the partial file, as they are read back or written. At
    /// most as many as a 64-bit count holds.
    pub fn absorb(&mut self, bytes: &[u8])
        requires
            old(self).stage == Stage::ReadPart || old(self).stage == Stage::Body,
            old(self).have + bytes@.len() <= u64::MAX,
        ensures
            final(self).hasher.bytes() == old(self).hasher.bytes() + bytes@,
            *final(self) == (Fetch {
                hasher: final(self).hasher,
                have: (old(self).have + bytes@.len()) as u64,
                ..*old(self)
            }),
    {
        self.hasher.update(bytes);
        self.have = self.have + bytes.len() as u64;
    }

    fn go(&mut self, stage: Stage, ask: Ask) -> (r: Ask)
        ensures
            old(self).moved(*final(self), stage),
            r == ask,
    {
        self.stage = stage;
        ask
    }

    /// How the search for an existing copy goes on.
    pub open spec fn after_dest(self, to: Fetch, r: Ask) -> bool {
        if self.adopt {
            self.moved(to, Stage::Twin) && r == Ask::FindTwin
        } else {
            self.moved(to, Stage::Part) && r == Ask::PartLength
        }
    }

    /// The file under the final name, if there is one, decides whether anything
    /// has to move.
    fn told_dest(&mut self, len: Option<u64>) -> (r: Ask)
        ensures
            match len {
                None => old(self).after_dest(*final(self), r),
                Some(have) => if have != old(self).size {
                    old(self).moved(*final(self), Stage::Over) && r == Ask::Fail(
                        FetchError::WrongLength { have, want: old(self).size },
                    )
                } else if old(self).verify && old(self).sha256 is Some {
                    old(self).moved(*final(self), Stage::DestHash) && r == Ask::HashDest
                } else {
                    old(self).moved(*final(self), Stage::Over) && r == (Ask::Done {
                        already_had_it: true,
                    })
                },
            },
    {
        match len {
            None => if self.adopt {
                self.go(Stage::Twin, Ask::FindTwin)
            } else {
                self.go(Stage::Part, Ask::PartLength)
            },
            Some(have) => {
                if have != self.size {
                    let want: u64 = self.size;
                    return self.go(
                        Stage::Over,
                        Ask::Fail(FetchError::WrongLength { have, want }),
                    );
                }
                if self.verify && self.sha256.is_some() {
                    self.go(Stage::DestHash, Ask::HashDest)
                } else {
                    self.go(Stage::Over, Ask::Done { already_had_it: true })
                }
            },
        }
    }

    fn same_hash(&self, got: &String) -> (r: bool)
        requires
            self.sha256 is Some,
        ensures
            r == (self.want() == Some(got@)),
    {
        match &self.sha256 {
            Some(want) => text::str_eq(want.as_str(), got.as_str()),
            None => false,
        }
    }

    fn wanted(&self) -> (r: String)
        requires
            self.sha256 is Some,
        ensures
            Some(r@) == self.want(),
    {
        match &self.sha256 {
            Some(want) => want.clone(),
            None => String::new(),
        }
    }

    fn told_dest_hash(&mut self, got: String) -> (r: Ask)
        requires
            old(self).sha256 is Some,
        ensures
            old(self).moved(*final(self), Stage::Over),
            if old(self).want() == Some(got@) {
                r == (Ask::Done { already_had_it: true })
            } else {
                &&& r matches Ask::Fail(FetchError::OtherFile { got: g, want: w })
                &&& g@ == got@
                &&& Some(w@) == old(self).want()
            },
    {
        if self.same_hash(&got) {
            return self.go(Stage::Over, Ask::Done { already_had_it: true });
        }
        let want = self.wanted();
        self.go(Stage::Over, Ask::Fail(FetchError::OtherFile { got, want }))
    }

    /// Whatever is in the partial file does not have to be fetched again, but has
    /// to go through the hasher. One that is larger than the file is started over.
    fn told_part(&mut self, len: Option<u64>) -> (r: Ask)
        ensures
            ({
                let have = match len {
                    Some(n) => if n > old(self).size {
                        0
                    } else {
                        n
                    },
                    None => 0,
                };
                if have > 0 {
                    old(self).moved(*final(self), Stage::ReadPart) && r == (Ask::ReadPart {
                        upto: have,
                    })
                } else {
                    old(self).moved(*final(self), Stage::Open) && r == (Ask::OpenPart {
                        len: old(self).have,
                    })
                }
            }),
    {
        let have: u64 = match len {
            Some(n) => if n > self.size {
                0
            } else {
                n
            },
            None => 0,
        };
        if have > 0 {
            return self.go(Stage::ReadPart, Ask::ReadPart { upto: have });
        }
        let len: u64 = self.have;
        self.go(Stage::Open, Ask::OpenPart { len })
    }

    fn told_open(&mut self) -> (r: Ask)
        ensures
            if old(self).have < old(self).size || old(self).size == 0 {
                old(self).moved(*final(self), Stage::Get) && r == (Ask::Get {
                    from: old(self).have,
                })
            } else {
                old(self).moved(*final(self), Stage::Sync) && r == Ask::SyncPart
            },
    {
        if self.have < self.size || self.size == 0 {
            let from: u64 = self.have;
            self.go(Stage::Get, Ask::Get { from })
        } else {
            self.go(Stage::Sync, Ask::SyncPart)
        }
    }

    /// A server that ignores the range answers with the whole file; that is taken
    /// from the top rather than appended to what is there.
    fn told_status(&mut self, status: u16) -> (r: Ask)
        ensures
            if !(200 <= status < 300) {
                old(self).moved(*final(self), Stage::Over) && r == Ask::Fail(
                    FetchError::Status(status),
                )
            } else if old(self).have > 0 && status != 206 {
                &&& r == Ask::RestartPart
                &&& final(self).hasher.bytes() == Seq::<u8>::empty()
                &&& *final(self) == (Fetch {
                    stage: Stage::Restart,
                    have: 0,
                    hasher: final(self).hasher,
                    ..*old(self)
                })
            } else {
                old(self).moved(*final(self), Stage::Body) && r == Ask::ReadBody
            },
    {
        if !(200 <= status && status < 300) {
            return self.go(Stage::Over, Ask::Fail(FetchError::Status(status)));
        }
        if self.have > 0 && status != 206 {
            self.hasher = Hasher::new();
            self.have = 0;
            return self.go(Stage::Restart, Ask::RestartPart);
        }
        self.go(Stage::Body, Ask::ReadBody)
    }

    /// The length, then the hash.
    fn told_synced(&mut self, got: u64) -> (r: Ask)
        requires
            old(self).wf(),
        ensures
            final(self).wf(),
            ({
                let at = Fetch { got, ..*old(self) };
                if !at.length_ok() {
                    at.moved(*final(self), Stage::Over) && r == Ask::Fail(
                        FetchError::Short { got, want: at.size },
                    )
                } else if !at.hash_ok() {
                    &&& at.moved(*final(self), Stage::Over)
                    &&& r matches Ask::Fail(FetchError::HashMismatch { got: g, want: w })
                    &&& g@ == at.digest()
                    &&& Some(w@) == at.want()
                } else if at.verify && at.is_gguf {
                    at.moved(*final(self), Stage::Parse) && r == Ask::ParsePart
                } else {
                    at.moved(*final(self), Stage::Rename) && r == Ask::RenamePart
                }
            }),
    {
        self.got = got;
        if self.size > 0 && got != self.size {
            let want: u64 = self.size;
            return self.go(Stage::Over, Ask::Fail(FetchError::Short { got, want }));
        }
        if self.verify && self.sha256.is_some() {
            let digest = self.hasher.digest_so_far();
            if !self.same_hash(&digest) {
                let want = self.wanted();
                return self.go(
                    Stage::Over,
                    Ask::Fail(FetchError::HashMismatch { got: digest, want }),
                );
            }
        }
        if self.verify && self.is_gguf {
            self.go(Stage::Parse, Ask::ParsePart)
        } else {
            self.go(Stage::Rename, Ask::RenamePart)
        }
    }

    /// Report what became of what was asked, and hear what to do next.
    ///
    /// The partial file gets its real name only when its length and hash are the
    /// published ones and, where it is a checkpoint to be verified, its tensor
    /// table parsed.
    pub fn tell(&mut self, told: Told) -> (r: Ask)
        requires
            old(self).wf(),
            answers(old(self).stage, told),
        ensures
            final(self).wf(),
            old(self).stepped(told, *final(self), r),
            r == Ask::RenamePart ==> final(self).length_ok() && final(self).hash_ok() && (
            final(self).verify && final(self).is_gguf ==> told == Told::Parsed(true)),
    {
        match (self.stage, told) {
            (Stage::Dest, Told::Length(len)) => self.told_dest(len),
            (Stage::DestHash, Told::Hash(got)) => self.told_dest_hash(got),
            (Stage::Twin, Told::Found(found)) => if found && self.sha256.is_some() {
                self.go(Stage::TwinHash, Ask::HashTwin)
            } else {
                self.go(Stage::Part, Ask::PartLength)
            },
            (Stage::TwinHash, Told::Hash(got)) => if self.same_hash(&got) {
                self.go(Stage::Link, Ask::LinkTwin)
            } else {
                self.go(Stage::Part, Ask::PartLength)
            },
            (Stage::Part, Told::Length(len)) => self.told_part(len),
            (Stage::ReadPart, Told::Did) => {
                let len: u64 = self.have;
                self.go(Stage::Open, Ask::OpenPart { len })
            },
            (Stage::Open, Told::Did) => self.told_open(),
            (Stage::Get, Told::Status(status)) => self.told_status(status),
            (Stage::Restart, Told::Did) => self.go(Stage::Body, Ask::ReadBody),
            (Stage::Body, Told::Did) => self.go(Stage::Sync, Ask::SyncPart),
            (Stage::Sync, Told::Length(Some(got))) => self.told_synced(got),
            (Stage::Parse, Told::Parsed(ok)) => if ok {
                self.go(Stage::Rename, Ask::RenamePart)
            } else {
                self.go(Stage::Over, Ask::Fail(FetchError::NotGguf))
            },
            (Stage::Link, _) => self.go(Stage::Over, Ask::Done { already_had_it: true }),
            (Stage::Rename, _) => self.go(Stage::Over, Ask::Done { already_had_it: false }),
            (_, _) => Ask::Fail(FetchError::NotGguf),
        }
    }

    /// What an answer leads to.
    pub open spec fn stepped(self, told: Told, to: Fetch, r: Ask) -> bool {
        match (self.stage, told) {
            (Stage::Dest, Told::Length(None)) => self.after_dest(to, r),
            (Stage::Dest, Told::Length(Some(have))) => if have != self.size {
                self.moved(to, Stage::Over) && r == Ask::Fail(
                    FetchError::WrongLength { have, want: self.size },
                )
            } else if self.verify && self.sha256 is Some {
                self.moved(to, Stage::DestHash) && r == Ask::HashDest
            } else {
                self.moved(to, Stage::Over) && r == (Ask::Done { already_had_it: true })
            },
            (Stage::DestHash, Told::Hash(got)) => {
                &&& self.moved(to, Stage::Over)
                &&& if self.want() == Some(got@) {
                    r == (Ask::Done { already_had_it: true })
                } else {
                    &&& r matches Ask::Fail(FetchError::OtherFile { got: g, want: w })
                    &&& g@ == got@
                    &&& Some(w@) == self.want()
                }
            },
            (Stage::Twin, Told::Found(found)) => if found && self.sha256 is Some {
                self.moved(to, Stage::TwinHash) && r == Ask::HashTwin
            } else {
                self.moved(to, Stage::Part) && r == Ask::PartLength
            },
            (Stage::TwinHash, Told::Hash(got)) => if self.want() == Some(got@) {
                self.moved(to, Stage::Link) && r == Ask::LinkTwin
            } else {
                self.moved(to, Stage::Part) && r == Ask::PartLength
            },
            (Stage::Link, _) => self.moved(to, Stage::Over) && r == (Ask::Done {
                already_had_it: true,
            }),
            (Stage::Part, Told::Length(len)) => {
                let have = match len {
                    Some(n) => if n > self.size {
                        0
                    } else {
                        n
                    },
                    None => 0,
                };
                if have > 0 {
                    self.moved(to, Stage::ReadPart) && r == (Ask::ReadPart { upto: have })
                } else {
                    self.moved(to, Stage::Open) && r == (Ask::OpenPart { len: self.have })
                }
            },
            (Stage::ReadPart, _) => self.moved(to, Stage::Open) && r == (Ask::OpenPart {
                len: self.have,
            }),
            (Stage::Open, _) => if self.have < self.size || self.size == 0 {
                self.moved(to, Stage::Get) && r == (Ask::Get { from: self.have })
            } else {
                self.moved(to, Stage::Sync) && r == Ask::SyncPart
            },
            (Stage::Get, Told::Status(status)) => if !(200 <= status < 300) {
                self.moved(to, Stage::Over) && r == Ask::Fail(FetchError::Status(status))
            } else if self.have > 0 && status != 206 {
                &&& r == Ask::RestartPart
                &&& to.hasher.bytes() == Seq::<u8>::empty()
                &&& to == (Fetch { stage: Stage::Restart, have: 0, hasher: to.hasher, ..self })
            } else {
                self.moved(to, Stage::Body) && r == Ask::ReadBody
            },
            (Stage::Restart, _) => self.moved(to, Stage::Body) && r == Ask::ReadBody,
            (Stage::Body, _) => self.moved(to, Stage::Sync) && r == Ask::SyncPart,
            (Stage::Sync, Told::Length(Some(got))) => {
                let at = Fetch { got, ..self };
                if !at.length_ok() {
                    at.moved(to, Stage::Over) && r == Ask::Fail(
                        FetchError::Short { got, want: at.size },
                    )
                } else if !at.hash_ok() {
                    &&& at.moved(to, Stage::Over)
                    &&& r matches Ask::Fail(FetchError::HashMismatch { got: g, want: w })
                    &&& g@ == at.digest()
                    &&& Some(w@) == at.want()
                } else if at.verify && at.is_gguf {
                    at.moved(to, Stage::Parse) && r == Ask::ParsePart
                } else {
                    at.moved(to, Stage::Rename) && r == Ask::RenamePart
                }
            },
            (Stage::Parse, Told::Parsed(ok)) => if ok {
                self.moved(to, Stage::Rename) && r == Ask::RenamePart
            } else {
                self.moved(to, Stage::Over) && r == Ask::Fail(FetchError::NotGguf)
            },
            (Stage::Rename, _) => self.moved(to, Stage::Over) && r == (Ask::Done {
                already_had_it: false,
            }),
            _ => true,
        }
    }
}

/// The range that a resumed request asks for.
pub fn range_header(from: u64) -> (r: Option<String>)
    ensures
        if from > 0 {
            r matches Some(s) && s@ == "bytes="@ + text::decimal(from as nat) + "-"@
        } else {
            r is None
        },
{
    if from == 0 {
        return None;
    }
    let mut s = "bytes=".to_owned();
    s.push_str(text::decimal_string(from).as_str());
    s.push_str("-");
    Some(s)
}

/// A file beside the one to fetch.
#[derive(Debug, Clone, Copy)]
pub struct Entry {
    /// It is the file to fetch itself.
    pub is_dest: bool,
    pub is_file: bool,
    /// Its name ends in `.part`.
    pub is_part: bool,
    pub len: u64,
}

/// A file, other than the one to fetch, whose length is exactly `size`.
pub open spec fn is_twin(e: Entry, size: u64) -> bool {
    size != 0 && !e.is_dest && e.is_file && !e.is_part && e.len == size
}

/// The first twin in a directory.
///
/// The same checkpoint is often already on disk under a different name. Size is
/// the cheap filter; the hash is what decides.
pub fn find_twin(entries: &[Entry], size: u64) -> (r: Option<usize>)
    ensures
        match r {
            Some(i) => i < entries@.len() && is_twin(entries@[i as int], size) && forall|k: int|
                0 <= k < i ==> !is_twin(#[trigger] entries@[k], size),
            None => forall|k: int| 0 <= k < entries@.len() ==> !is_twin(#[trigger] entries@[k], size),
        },
{
    let n: usize = entries.len();
    let mut i: usize = 0;
    while i < n
        invariant
            i <= n,
            n == entries@.len(),
            forall|k: int| 0 <= k < i ==> !is_twin(#[trigger] entries@[k], size),
        decreases n - i,
    {
        let e = entries[i];
        if size != 0 && !e.is_dest && e.is_file && !e.is_part && e.len == size {
            return Some(i);
        }
        i = i + 1;
    }
    None
}

// ---------------------------------------------------------------------------
// Laws
// ---------------------------------------------------------------------------
/// What was hashed is what the `.part` file holds, as far as the stage has got with it.
pub open spec fn hashed(f: Fetch, part: Seq<u8>) -> bool {
    match f.stage {
        Stage::Dest | Stage::DestHash | Stage::Twin | Stage::TwinHash | Stage::Link
        | Stage::Part => f.have == 0 && f.hasher.bytes() == Seq::<u8>::empty(),
        Stage::ReadPart | Stage::Open => f.have <= part.len() && f.hasher.bytes() == part.take(
            f.have as int,
        ),
        Stage::Restart => f.have == 0 && f.hasher.bytes() == Seq::<u8>::empty(),
        Stage::Get | Stage::Body | Stage::Sync => f.have == part.len() && f.hasher.bytes() == part,
        Stage::Parse | Stage::Rename => f.got == part.len() && f.hasher.bytes() == part,
        Stage::Over => true,
    }
}

/// What becomes of the `.part` file while the driver does what it was asked: it is cut to
/// the length that it is opened with, emptied when it is begun anew, and measured when it
/// is synced.
pub open spec fn part_after(f: Fetch, told: Told, part: Seq<u8>, after: Seq<u8>) -> bool {
    match f.stage {
        Stage::Open => after == part.take(f.have as int),
        Stage::Restart => after == Seq::<u8>::empty(),
        Stage::Sync => after == part && told == Told::Length(Some(part.len() as u64)) && part.len()
            <= u64::MAX,
        _ => after == part,
    }
}

/// The hash follows the `.part` file at every step, so that the file takes its real name
/// only when it is as long as the remote says, its own bytes have the hash that the remote
/// says, and it was parsed where it is to be.
pub proof fn only_the_whole_file_takes_the_name(
    f: Fetch,
    told: Told,
    to: Fetch,
    r: Ask,
    part: Seq<u8>,
    after: Seq<u8>,
)
    requires
        f.wf(),
        answers(f.stage, told),
        f.stepped(told, to, r),
        hashed(f, part),
        part_after(f, told, part, after),
    ensures
        hashed(to, after),
        r == Ask::RenamePart ==> {
            &&& f.size > 0 ==> after.len() == f.size
            &&& f.verify ==> match f.sha256 {
                Some(want) => want@ == hex_of(sha256(after)),
                None => true,
            }
            &&& f.verify && f.is_gguf ==> told == Told::Parsed(true)
        },
        r matches Ask::Get { from } ==> from == after.len(),
        r == Ask::LinkTwin ==> match (told, f.sha256) {
            (Told::Hash(got), Some(want)) => want@ == got@,
            _ => false,
        },
{
    if f.stage == Stage::Open {
        let cut = part.take(f.have as int);
        assert(cut.take(f.have as int) =~= cut);
    }
    if f.stage == Stage::Part {
        assert(part.take(0) =~= Seq::<u8>::empty());
    }
    if f.stage == Stage::Get || f.stage == Stage::Restart {
        assert(part.take(part.len() as int) =~= part);
    }
}

/// What is read of a `.part` file that is resumed, and what is read of the body while it
/// is added to the file, is hashed.
pub proof fn what_is_read_is_hashed(
    f: Fetch,
    bytes: Seq<u8>,
    to: Fetch,
    part: Seq<u8>,
    after: Seq<u8>,
)
    requires
        f.stage == Stage::ReadPart || f.stage == Stage::Body,
        f.have + bytes.len() <= u64::MAX,
        to.hasher.bytes() == f.hasher.bytes() + bytes,
        to == (Fetch { hasher: to.hasher, have: (f.have + bytes.len()) as u64, ..f }),
        hashed(f, part),
        f.stage == Stage::ReadPart ==> after == part && f.have + bytes.len() <= part.len() && bytes
            == part.subrange(f.have as int, f.have + bytes.len()),
        f.stage == Stage::Body ==> after == part + bytes,
    ensures
        hashed(to, after),
{
    if f.stage == Stage::ReadPart {
        let (a, b) = (f.have as int, f.have + bytes.len());
        assert(part.take(a) + part.subrange(a, b) =~= part.take(b));
    }
}

/// A file is taken as already there only when it is as long as the remote says and, where
/// it is to be verified and the remote says its hash, has that hash.
pub proof fn only_the_right_file_is_taken_as_there(f: Fetch, told: Told, to: Fetch, r: Ask)
    requires
        f.wf(),
        answers(f.stage, told),
        f.stepped(told, to, r),
        r == (Ask::Done { already_had_it: true }),
    ensures
        match f.stage {
            Stage::Dest => told == Told::Length(Some(f.size)) && !(f.verify && f.sha256 is Some),
            Stage::DestHash => match (told, f.sha256) {
                (Told::Hash(got), Some(want)) => want@ == got@,
                _ => false,
            },
            stage => stage == Stage::Link,
        },
{
}

} // verus!
