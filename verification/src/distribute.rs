//! The distribution codec protocol.
//!
//! A distributable is a package's patch directory as one opaque file: the
//! directory archived and compressed, then encrypted under a key derived
//! from the base ROM's bytes, so the file is useless without a
//! legally-obtained copy of the base asset. The archiver and cipher are
//! outside the library; this module holds the protocol: which step comes
//! next, with which inputs, and that nothing succeeds past a failed
//! decryption or extraction — decrypting with the wrong base ROM is
//! indistinguishable, by design, from a corrupt archive.

use vstd::prelude::*;
use crate::text::has_suffix;
use crate::text::str_has_suffix;

verus! {

/// The file extension of a distributable.
pub open spec fn distributable_suffix() -> Seq<char> {
    ".merlon"@
}

/// Returns true if the given file name looks like a distributable
/// package: it ends in the distributable extension.
pub fn is_distributable_package(name: &str) -> (r: bool)
    ensures
        r == has_suffix(name@, distributable_suffix()),
{
    str_has_suffix(name, ".merlon")
}

/// The default file name of an exported distributable: the package name
/// in kebab-case, the date, and the distributable extension.
pub fn distributable_file_name(kebab_name: &str, date: &str) -> (r: String)
    ensures
        r@ == kebab_name@ + "-"@ + date@ + distributable_suffix(),
{
    let mut s = kebab_name.to_owned();
    s.append("-");
    s.append(date);
    s.append(".merlon");
    s
}

/// A distributable: the path of an exported, encrypted patch archive.
#[derive(Debug)]
pub struct Distributable {
    path: String,
}

/// Errors of the distribution codec.
#[derive(Debug)]
pub enum DistributeError {
    /// The file name does not end in the distributable extension.
    NotADistributable,
    /// The caller's event does not answer the pending action.
    Protocol,
    /// Archiving or compressing the patch directory failed.
    PackStepFailed,
    /// Decrypting or extracting failed: the base ROM differs from the one
    /// the distributable was keyed with, or the file is corrupt. The two
    /// cases are deliberately not told apart.
    WrongKeyOrCorrupt,
}

impl View for Distributable {
    type V = Seq<char>;

    closed spec fn view(&self) -> Seq<char> {
        self.path@
    }
}

impl Distributable {
    /// Wraps a distributable file path. Fails when the name does not end
    /// in the distributable extension.
    pub fn from_path(path: String) -> (r: Result<Distributable, DistributeError>)
        ensures
            match r {
                Ok(d) => has_suffix(path@, distributable_suffix()) && d@ == path@,
                Err(e) => !has_suffix(path@, distributable_suffix()),
            },
    {
        if !is_distributable_package(path.as_str()) {
            return Err(DistributeError::NotADistributable);
        }
        Ok(Distributable { path })
    }

    /// The distributable's file path.
    pub fn path(&self) -> (r: &str)
        ensures
            r@ == self@,
    {
        self.path.as_str()
    }
}

/// An archiver or cipher action the caller must perform next.
#[derive(Debug)]
pub enum PackAction {
    /// Archive and compress the patch directory into the archive file.
    CompressPatches {
        /// The patch directory.
        patches_dir: String,
        /// The archive file to produce.
        archive: String,
    },
    /// Encrypt the archive into the output file, under a key derived from
    /// the base ROM file's bytes.
    EncryptArchive {
        /// The compressed archive.
        archive: String,
        /// The encrypted file to produce.
        output: String,
        /// The base ROM file whose bytes key the cipher.
        baserom: String,
    },
    /// The distributable has been written.
    Done,
}

/// What the caller reports back after performing a codec action.
#[derive(Debug)]
pub enum PackEvent {
    /// Begin the protocol.
    Start,
    /// The previous action succeeded.
    Succeeded,
    /// The previous action failed.
    Failed,
}

/// Where the export protocol stands.
#[derive(Debug, PartialEq, Eq, Structural, Clone, Copy)]
pub enum PackPhase {
    /// Nothing has happened yet.
    Idle,
    /// Waiting for the archive to be produced.
    AwaitCompress,
    /// Waiting for the archive to be encrypted.
    AwaitEncrypt,
    /// The protocol has finished.
    Finished,
}

/// The export protocol: archive, then encrypt, in that order; a failure
/// at either step aborts.
#[derive(Debug)]
pub struct PackMachine {
    patches_dir: String,
    archive: String,
    output: String,
    baserom: String,
    phase: PackPhase,
}

impl PackMachine {
    /// The machine's current phase.
    pub closed spec fn phase(self) -> PackPhase {
        self.phase
    }

    /// Whether the machine accepts `event` in its current phase: the
    /// event answers the pending action with success.
    pub open spec fn accepts(self, event: PackEvent) -> bool {
        match (self.phase(), event) {
            (PackPhase::Idle, PackEvent::Start) => true,
            (PackPhase::AwaitCompress, PackEvent::Succeeded) => true,
            (PackPhase::AwaitEncrypt, PackEvent::Succeeded) => true,
            _ => false,
        }
    }

    /// The patch directory being packed.
    pub closed spec fn patches_dir(self) -> Seq<char> {
        self.patches_dir@
    }

    /// The intermediate archive path.
    pub closed spec fn archive(self) -> Seq<char> {
        self.archive@
    }

    /// The output path.
    pub closed spec fn output(self) -> Seq<char> {
        self.output@
    }

    /// The base ROM path that keys the cipher.
    pub closed spec fn baserom(self) -> Seq<char> {
        self.baserom@
    }

    /// Plans an export: the patch directory at `patches_dir` will be
    /// archived to `archive`, then encrypted to `output` under a key
    /// derived from the bytes of the file at `baserom`.
    pub fn new(patches_dir: String, archive: String, output: String, baserom: String) -> (r:
        PackMachine)
        ensures
            r.phase() == PackPhase::Idle,
            r.patches_dir() == patches_dir@,
            r.archive() == archive@,
            r.output() == output@,
            r.baserom() == baserom@,
    {
        PackMachine { patches_dir, archive, output, baserom, phase: PackPhase::Idle }
    }

    /// Feeds the caller's event to the machine and hands back the next
    /// action: compression first, then encryption, then done. A reported
    /// failure aborts the export.
    pub fn step(&mut self, event: PackEvent) -> (r: Result<PackAction, DistributeError>)
        ensures
            final(self).patches_dir() == old(self).patches_dir(),
            final(self).archive() == old(self).archive(),
            final(self).output() == old(self).output(),
            final(self).baserom() == old(self).baserom(),
            r is Ok <==> old(self).accepts(event),
            match r {
                Ok(action) => match (old(self).phase(), event) {
                    (PackPhase::Idle, PackEvent::Start) => {
                        &&& final(self).phase() == PackPhase::AwaitCompress
                        &&& action matches PackAction::CompressPatches { patches_dir, archive }
                            && patches_dir@ == old(self).patches_dir() && archive@ == old(
                            self,
                        ).archive()
                    },
                    (PackPhase::AwaitCompress, PackEvent::Succeeded) => {
                        &&& final(self).phase() == PackPhase::AwaitEncrypt
                        &&& action matches PackAction::EncryptArchive { archive, output, baserom }
                            && archive@ == old(self).archive() && output@ == old(self).output()
                            && baserom@ == old(self).baserom()
                    },
                    (PackPhase::AwaitEncrypt, PackEvent::Succeeded) => {
                        &&& final(self).phase() == PackPhase::Finished
                        &&& action is Done
                    },
                    _ => false,
                },
                Err(e) => {
                    &&& final(self).phase() == old(self).phase()
                    &&& match e {
                        DistributeError::PackStepFailed => event is Failed && (old(self).phase()
                            == PackPhase::AwaitCompress || old(self).phase()
                            == PackPhase::AwaitEncrypt),
                        DistributeError::Protocol => !(event is Failed && (old(self).phase()
                            == PackPhase::AwaitCompress || old(self).phase()
                            == PackPhase::AwaitEncrypt)),
                        _ => false,
                    }
                },
            },
    {
        match (self.phase, event) {
            (PackPhase::Idle, PackEvent::Start) => {
                self.phase = PackPhase::AwaitCompress;
                Ok(PackAction::CompressPatches {
                    patches_dir: self.patches_dir.clone(),
                    archive: self.archive.clone(),
                })
            },
            (PackPhase::AwaitCompress, PackEvent::Succeeded) => {
                self.phase = PackPhase::AwaitEncrypt;
                Ok(PackAction::EncryptArchive {
                    archive: self.archive.clone(),
                    output: self.output.clone(),
                    baserom: self.baserom.clone(),
                })
            },
            (PackPhase::AwaitEncrypt, PackEvent::Succeeded) => {
                self.phase = PackPhase::Finished;
                Ok(PackAction::Done)
            },
            (PackPhase::AwaitCompress, PackEvent::Failed) => Err(
                DistributeError::PackStepFailed,
            ),
            (PackPhase::AwaitEncrypt, PackEvent::Failed) => Err(DistributeError::PackStepFailed),
            (_, _) => Err(DistributeError::Protocol),
        }
    }
}

/// An action of the open (import) protocol.
#[derive(Debug)]
pub enum OpenAction {
    /// Decrypt the distributable into the archive file, under a key
    /// derived from the base ROM file's bytes.
    DecryptArchive {
        /// The distributable file.
        input: String,
        /// The decrypted archive to produce.
        archive: String,
        /// The base ROM file whose bytes key the cipher.
        baserom: String,
    },
    /// Extract the decompressed archive into the destination directory.
    ExtractPatches {
        /// The decrypted archive.
        archive: String,
        /// The directory to extract the patch files into.
        dest_dir: String,
    },
    /// The patch directory has been reproduced.
    Done,
}

/// Where the open protocol stands.
#[derive(Debug, PartialEq, Eq, Structural, Clone, Copy)]
pub enum OpenPhase {
    /// Nothing has happened yet.
    Idle,
    /// Waiting for the decryption.
    AwaitDecrypt,
    /// Waiting for the extraction.
    AwaitExtract,
    /// The protocol has finished.
    Finished,
}

/// The open protocol: decrypt, then extract, in that order. A failure at
/// either step aborts with one conflated error: a wrong base ROM and a
/// corrupt file are deliberately indistinguishable.
#[derive(Debug)]
pub struct OpenMachine {
    input: String,
    archive: String,
    dest_dir: String,
    baserom: String,
    phase: OpenPhase,
}

impl OpenMachine {
    /// The machine's current phase.
    pub closed spec fn phase(self) -> OpenPhase {
        self.phase
    }

    /// Whether the machine accepts `event` in its current phase: the
    /// event answers the pending action with success.
    pub open spec fn accepts(self, event: PackEvent) -> bool {
        match (self.phase(), event) {
            (OpenPhase::Idle, PackEvent::Start) => true,
            (OpenPhase::AwaitDecrypt, PackEvent::Succeeded) => true,
            (OpenPhase::AwaitExtract, PackEvent::Succeeded) => true,
            _ => false,
        }
    }

    /// The distributable being opened.
    pub closed spec fn input(self) -> Seq<char> {
        self.input@
    }

    /// The intermediate archive path.
    pub closed spec fn archive(self) -> Seq<char> {
        self.archive@
    }

    /// The destination directory.
    pub closed spec fn dest_dir(self) -> Seq<char> {
        self.dest_dir@
    }

    /// The base ROM path that keys the cipher.
    pub closed spec fn baserom(self) -> Seq<char> {
        self.baserom@
    }

    /// Plans an open: the distributable will be decrypted to `archive`
    /// under a key derived from the bytes of the file at `baserom`, then
    /// extracted into `dest_dir`.
    pub fn new(distributable: &Distributable, archive: String, dest_dir: String, baserom: String)
        -> (r: OpenMachine)
        ensures
            r.phase() == OpenPhase::Idle,
            r.input() == distributable@,
            r.archive() == archive@,
            r.dest_dir() == dest_dir@,
            r.baserom() == baserom@,
    {
        OpenMachine {
            input: distributable.path.clone(),
            archive,
            dest_dir,
            baserom,
            phase: OpenPhase::Idle,
        }
    }

    /// Feeds the caller's event to the machine and hands back the next
    /// action: decryption first, then extraction, then done. A reported
    /// failure aborts with the conflated wrong-key-or-corrupt error, so a
    /// distributable never opens into patch files without the right base
    /// ROM.
    pub fn step(&mut self, event: PackEvent) -> (r: Result<OpenAction, DistributeError>)
        ensures
            final(self).input() == old(self).input(),
            final(self).archive() == old(self).archive(),
            final(self).dest_dir() == old(self).dest_dir(),
            final(self).baserom() == old(self).baserom(),
            r is Ok <==> old(self).accepts(event),
            match r {
                Ok(action) => match (old(self).phase(), event) {
                    (OpenPhase::Idle, PackEvent::Start) => {
                        &&& final(self).phase() == OpenPhase::AwaitDecrypt
                        &&& action matches OpenAction::DecryptArchive { input, archive, baserom }
                            && input@ == old(self).input() && archive@ == old(self).archive()
                            && baserom@ == old(self).baserom()
                    },
                    (OpenPhase::AwaitDecrypt, PackEvent::Succeeded) => {
                        &&& final(self).phase() == OpenPhase::AwaitExtract
                        &&& action matches OpenAction::ExtractPatches { archive, dest_dir }
                            && archive@ == old(self).archive() && dest_dir@ == old(
                            self,
                        ).dest_dir()
                    },
                    (OpenPhase::AwaitExtract, PackEvent::Succeeded) => {
                        &&& final(self).phase() == OpenPhase::Finished
                        &&& action is Done
                    },
                    _ => false,
                },
                Err(e) => {
                    &&& final(self).phase() == old(self).phase()
                    &&& match e {
                        DistributeError::WrongKeyOrCorrupt => event is Failed && (old(
                            self,
                        ).phase() == OpenPhase::AwaitDecrypt || old(self).phase()
                            == OpenPhase::AwaitExtract),
                        DistributeError::Protocol => !(event is Failed && (old(self).phase()
                            == OpenPhase::AwaitDecrypt || old(self).phase()
                            == OpenPhase::AwaitExtract)),
                        _ => false,
                    }
                },
            },
    {
        match (self.phase, event) {
            (OpenPhase::Idle, PackEvent::Start) => {
                self.phase = OpenPhase::AwaitDecrypt;
                Ok(OpenAction::DecryptArchive {
                    input: self.input.clone(),
                    archive: self.archive.clone(),
                    baserom: self.baserom.clone(),
                })
            },
            (OpenPhase::AwaitDecrypt, PackEvent::Succeeded) => {
                self.phase = OpenPhase::AwaitExtract;
                Ok(OpenAction::ExtractPatches {
                    archive: self.archive.clone(),
                    dest_dir: self.dest_dir.clone(),
                })
            },
            (OpenPhase::AwaitExtract, PackEvent::Succeeded) => {
                self.phase = OpenPhase::Finished;
                Ok(OpenAction::Done)
            },
            (OpenPhase::AwaitDecrypt, PackEvent::Failed) => Err(
                DistributeError::WrongKeyOrCorrupt,
            ),
            (OpenPhase::AwaitExtract, PackEvent::Failed) => Err(
                DistributeError::WrongKeyOrCorrupt,
            ),
            (_, _) => Err(DistributeError::Protocol),
        }
    }
}

} // verus!
