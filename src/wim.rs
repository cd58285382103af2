//! The image layout of a Windows ESD archive, as far as the media build relies on
//! it: the base image (index 1), the WinPE image (2), the Setup image (3) and the
//! install images (4 and on), and the decisions that writing them takes.
use vstd::prelude::*;
use vstd::string::StringExecFns;

verus! {

/// A mismatch between what an archive holds and what was expected.
#[derive(Debug)]
pub struct ValidationError {
    pub message: String,
    pub expected: String,
    pub got: String,
}

/// Checking a value against the one expected.
pub trait ExpectEqual: Sized {
    spec fn same_as(&self, other: &Self) -> bool;

    /// The value itself where it equals `expected`; else a `ValidationError` that
    /// carries `message` and both values.
    fn expect_equal<'a>(&'a self, expected: &Self, message: &str) -> (r: Result<&'a Self, ValidationError>)
        ensures
            r is Ok <==> self.same_as(expected),
            r matches Ok(x) ==> x == self,
            r matches Err(e) ==> e.message@ == message@,
    ;
}

impl ExpectEqual for String {
    open spec fn same_as(&self, other: &Self) -> bool {
        self@ == other@
    }

    fn expect_equal<'a>(&'a self, expected: &Self, message: &str) -> (r: Result<&'a Self, ValidationError>)
        ensures
            r is Ok <==> self.same_as(expected),
            r matches Ok(x) ==> x == self,
            r matches Err(e) ==> e.message@ == message@ && e.expected@ == expected@ && e.got@ == self@,
    {
        if *self == *expected {
            Ok(self)
        } else {
            Err(ValidationError { message: message.to_owned(), expected: expected.clone(), got: self.clone() })
        }
    }
}

/// Properties of one image of an archive.
#[derive(Debug)]
pub struct ImageInfo {
    /// Index in the archive, from 1.
    pub index: u32,
    pub name: String,
    pub description: String,
    pub size: i64,
    /// `WINDOWS/EDITIONID`.
    pub edition_id: String,
    /// `FLAGS`.
    pub flags: String,
}

/// Why the archive's layout was refused.
#[derive(Debug)]
pub enum WimError {
    /// The archive has no image of this index.
    MissingImage(u32),
    /// The image indices are not 1, 2, ... in order.
    BadIndex,
    /// An image's property is not the expected one.
    Layout(ValidationError),
    /// No install image has the requested edition.
    InstallEditionNotFound,
    /// Several install images have the requested edition.
    MultipleInstallEditions,
}

/// Compression of the archives that are written.
#[derive(Debug, Clone, Copy, PartialEq, Eq, Structural)]
pub enum Compression {
    Lzx,
}

/// Chunk size of the archives that are written.
pub const WIM_CHUNK_SIZE: u32 = 32 * 1024;

/// Index of the first install image.
pub const FIRST_INSTALL_INDEX: u32 = 4;

/// How one image is exported into a new archive.
#[derive(Debug)]
pub struct ExportPlan {
    pub source_index: u32,
    pub name: String,
    pub description: String,
    pub bootable: bool,
    pub compression: Compression,
    pub chunk_size: u32,
}

/// The image table of an opened source archive.
#[derive(Debug)]
pub struct ESD {
    img_path: String,
    images: Vec<ImageInfo>,
    disposed: bool,
}

pub open spec fn indexed_in_order(images: Seq<ImageInfo>) -> bool {
    forall|i: int| 0 <= i < images.len() ==> (#[trigger] images[i]).index == i + 1
}

/// The positions (from 0) of the install images whose edition is `edition`.
pub open spec fn install_matches(images: Seq<ImageInfo>, edition: Seq<char>) -> Set<int> {
    Set::new(|i: int| 3 <= i < images.len() && images[i].edition_id@ == edition)
}

impl ESD {
    pub closed spec fn images(&self) -> Seq<ImageInfo> {
        self.images@
    }

    pub closed spec fn path(&self) -> Seq<char> {
        self.img_path@
    }

    pub closed spec fn is_disposed(&self) -> bool {
        self.disposed
    }

    /// The image table of the archive at `img_path`; the images must be listed by
    /// index, from 1.
    pub fn new(img_path: String, images: Vec<ImageInfo>) -> (r: Result<ESD, WimError>)
        ensures
            match r {
                Ok(e) => e.images() == images@ && e.path() == img_path@ && !e.is_disposed() && indexed_in_order(
                    images@,
                ),
                Err(err) => err is BadIndex && !indexed_in_order(images@),
            },
    {
        let mut i: usize = 0;
        while i < images.len()
            invariant
                i <= images@.len(),
                forall|j: int| 0 <= j < i ==> (#[trigger] images@[j]).index == j + 1,
            decreases images@.len() - i,
        {
            if i >= u32::MAX as usize || images[i].index != (i + 1) as u32 {
                assert(images@[i as int].index != i + 1);
                return Err(WimError::BadIndex);
            }
            i = i + 1;
        }
        Ok(ESD { img_path, images, disposed: false })
    }

    /// Properties of every image, by index.
    pub fn get_img_info(&self) -> (r: &Vec<ImageInfo>)
        ensures
            r@ == self.images(),
    {
        &self.images
    }

    /// Marks the table as released.
    pub fn cleanup(&mut self)
        ensures
            final(self).is_disposed(),
            final(self).images() == old(self).images(),
            final(self).path() == old(self).path(),
    {
        self.disposed = true;
    }

    /// The image of a given index, where there is one.
    pub fn image(&self, index: u32) -> (r: Result<&ImageInfo, WimError>)
        ensures
            match r {
                Ok(im) => 1 <= index <= self.images().len() && *im == self.images()[index - 1],
                Err(e) => e == WimError::MissingImage(index) && !(1 <= index <= self.images().len()),
            },
    {
        if index == 0 || index as usize > self.images.len() {
            return Err(WimError::MissingImage(index));
        }
        Ok(&self.images[(index - 1) as usize])
    }

    /// How image `index` is exported into a new archive: LZX, 32 KiB chunks, with
    /// its name and description.
    pub fn export_img(&self, index: u32, bootable: bool) -> (r: Result<ExportPlan, WimError>)
        ensures
            match r {
                Ok(p) => 1 <= index <= self.images().len() && p.source_index == index && p.name@ == self.images()[index
                    - 1].name@ && p.description@ == self.images()[index - 1].description@ && p.bootable == bootable
                    && p.compression == Compression::Lzx && p.chunk_size == WIM_CHUNK_SIZE,
                Err(e) => e == WimError::MissingImage(index) && !(1 <= index <= self.images().len()),
            },
    {
        let im = self.image(index)?;
        Ok(ExportPlan {
            source_index: index,
            name: im.name.clone(),
            description: im.description.clone(),
            bootable,
            compression: Compression::Lzx,
            chunk_size: WIM_CHUNK_SIZE,
        })
    }

    /// The base image: index 1, named `Windows Setup Media`.
    pub fn base(&self) -> (r: Result<u32, WimError>)
        ensures
            r is Ok <==> self.images().len() >= 1 && self.images()[0].name@ == "Windows Setup Media"@,
            r matches Ok(i) ==> i == 1,
            r matches Err(e) ==> match e {
                WimError::MissingImage(i) => i == 1 && self.images().len() == 0,
                WimError::Layout(v) => self.images().len() >= 1 && v.expected@ == "Windows Setup Media"@
                    && v.got@ == self.images()[0].name@ && v.message@ == "Unexpected image name at index 1"@,
                _ => false,
            },
    {
        let im = self.image(1)?;
        let expected = String::from_str("Windows Setup Media");
        match im.name.expect_equal(&expected, "Unexpected image name at index 1") {
            Ok(_) => Ok(1),
            Err(e) => Err(WimError::Layout(e)),
        }
    }

    /// Exports a boot image after checking that it is WinPE based and carries the
    /// expected `FLAGS`.
    fn boot_image(&self, index: u32, flags: &str, message: &str) -> (r: Result<ExportPlan, WimError>)
        requires
            index >= 1,
        ensures
            r is Ok <==> index <= self.images().len() && self.images()[index - 1].flags@ == flags@
                && self.images()[index - 1].edition_id@ == "WindowsPE"@,
            r matches Ok(p) ==> p.source_index == index && p.bootable && p.name@ == self.images()[index - 1].name@
                && p.description@ == self.images()[index - 1].description@ && p.compression == Compression::Lzx
                && p.chunk_size == WIM_CHUNK_SIZE,
    {
        let im = self.image(index)?;
        let want_flags = String::from_str(flags);
        if let Err(e) = im.flags.expect_equal(&want_flags, message) {
            return Err(WimError::Layout(e));
        }
        let want_edition = String::from_str("WindowsPE");
        if let Err(e) = im.edition_id.expect_equal(&want_edition, "Expected a WindowsPE based image") {
            return Err(WimError::Layout(e));
        }
        self.export_img(index, true)
    }

    /// The WinPE image: index 2, `FLAGS` 9, edition `WindowsPE`, exported bootable.
    pub fn win_pe(&self) -> (r: Result<ExportPlan, WimError>)
        ensures
            r is Ok <==> self.images().len() >= 2 && self.images()[1].flags@ == "9"@
                && self.images()[1].edition_id@ == "WindowsPE"@,
            r matches Ok(p) ==> p.source_index == 2 && p.bootable && p.compression == Compression::Lzx && p.chunk_size
                == WIM_CHUNK_SIZE && p.name@ == self.images()[1].name@ && p.description@ == self.images()[1].description@,
    {
        self.boot_image(2, "9", "Expected image at index 2 to be WindowsPE")
    }

    /// The Setup image that becomes `boot.wim`: index 3, `FLAGS` 2, edition
    /// `WindowsPE`, exported bootable.
    pub fn boot(&self) -> (r: Result<ExportPlan, WimError>)
        ensures
            r is Ok <==> self.images().len() >= 3 && self.images()[2].flags@ == "2"@
                && self.images()[2].edition_id@ == "WindowsPE"@,
            r matches Ok(p) ==> p.source_index == 3 && p.bootable && p.compression == Compression::Lzx && p.chunk_size
                == WIM_CHUNK_SIZE && p.name@ == self.images()[2].name@ && p.description@ == self.images()[2].description@,
    {
        self.boot_image(3, "2", "Expected image at index 3 to be Windows Setup")
    }

    /// The install image of an edition, among indices 4 and on: `None` where there
    /// is none, an error where there are several.
    pub fn install(&self, edition: &str) -> (r: Result<Option<u32>, WimError>)
        requires
            indexed_in_order(self.images()),
        ensures
            match r {
                Ok(None) => install_matches(self.images(), edition@).is_empty(),
                Ok(Some(i)) => install_matches(self.images(), edition@) == set![i - 1] && self.images()[i - 1].index == i,
                Err(e) => e is MultipleInstallEditions && exists|a: int, b: int|
                    a != b && #[trigger] install_matches(self.images(), edition@).contains(a)
                        && #[trigger] install_matches(self.images(), edition@).contains(b),
            },
    {
        let ghost m = install_matches(self.images(), edition@);
        let want = String::from_str(edition);
        let mut found: Option<usize> = None;
        let mut i: usize = 3;
        while i < self.images.len()
            invariant
                3 <= i,
                i <= self.images@.len() || self.images@.len() < 3,
                want@ == edition@,
                m == install_matches(self.images@, edition@),
                indexed_in_order(self.images@),
                match found {
                    None => forall|j: int| 3 <= j < i ==> !m.contains(j),
                    Some(k) => 3 <= k < i && m.contains(k as int) && forall|j: int| 3 <= j < i && j != k ==> !m.contains(j),
                },
            decreases self.images@.len() - i,
        {
            if self.images[i].edition_id == want {
                assert(m.contains(i as int));
                match found {
                    Some(k) => {
                        assert(m.contains(k as int) && m.contains(i as int) && k != i);
                        assert(install_matches(self.images(), edition@).contains(k as int));
                        assert(install_matches(self.images(), edition@).contains(i as int));
                        return Err(WimError::MultipleInstallEditions);
                    },
                    None => {
                        found = Some(i);
                    },
                }
            }
            i = i + 1;
        }
        match found {
            None => {
                assert(m =~= Set::<int>::empty());
                Ok(None)
            },
            Some(k) => {
                assert(m =~= set![k as int]);
                assert(self.images@[k as int].index == k + 1);
                Ok(Some(self.images[k].index))
            },
        }
    }

    /// The install image of an edition; an error where there is none.
    pub fn install_index(&self, edition: &str) -> (r: Result<u32, WimError>)
        requires
            indexed_in_order(self.images()),
        ensures
            match r {
                Ok(i) => install_matches(self.images(), edition@) == set![i - 1],
                Err(WimError::InstallEditionNotFound) => install_matches(self.images(), edition@).is_empty(),
                Err(WimError::MultipleInstallEditions) => exists|a: int, b: int|
                    a != b && #[trigger] install_matches(self.images(), edition@).contains(a)
                        && #[trigger] install_matches(self.images(), edition@).contains(b),
                Err(_) => false,
            },
    {
        match self.install(edition)? {
            Some(i) => Ok(i),
            None => Err(WimError::InstallEditionNotFound),
        }
    }
}

impl ESD {
    /// The images that `boot.wim` receives, in order: the WinPE image (where
    /// `with_win_pe`) and the Setup image, each checked and exported bootable.
    pub fn boot_wim_plan(&self, with_win_pe: bool) -> (r: Result<Vec<ExportPlan>, WimError>)
        ensures
            r matches Ok(v) ==> {
                &&& v@.len() == if with_win_pe { 2int } else { 1int }
                &&& forall|k: int| 0 <= k < v@.len() ==> (#[trigger] v@[k]).bootable && self.images()[v@[k].source_index - 1].edition_id@
                    == "WindowsPE"@ && 1 <= v@[k].source_index <= self.images().len()
                &&& with_win_pe ==> v@[0].source_index == 2 && self.images()[1].flags@ == "9"@
                &&& v@[v@.len() - 1].source_index == 3 && self.images()[2].flags@ == "2"@
            },
            r is Ok <==> (self.images().len() >= 3 && self.images()[2].flags@ == "2"@ && self.images()[2].edition_id@
                == "WindowsPE"@ && (with_win_pe ==> self.images()[1].flags@ == "9"@ && self.images()[1].edition_id@
                == "WindowsPE"@)),
    {
        let mut v: Vec<ExportPlan> = Vec::new();
        if with_win_pe {
            let pe = self.win_pe()?;
            v.push(pe);
        }
        let setup = self.boot()?;
        v.push(setup);
        Ok(v)
    }
}

/// Shard size for splitting an archive of `written` bytes that exceeds
/// `max_file_size`: 90% of the maximum, leaving room for each shard's metadata;
/// `None` where the archive fits.
pub open spec fn shard_size_spec(written: u64, max_file_size: u64) -> Option<u64> {
    if written > max_file_size {
        Some(((max_file_size as nat * 9) / 10) as u64)
    } else {
        None
    }
}

/// Whether, and with which shard size, a written archive is split.
pub fn split_size(written: u64, max_file_size: u64) -> (r: Option<u64>)
    ensures
        r == shard_size_spec(written, max_file_size),
{
    if written > max_file_size {
        let q = max_file_size / 10;
        let rem = max_file_size % 10;
        let s = q * 9 + (rem * 9) / 10;
        assert(s == (max_file_size as nat * 9) / 10) by (nonlinear_arith)
            requires
                q == max_file_size / 10,
                rem == max_file_size % 10,
                s == q * 9 + (rem * 9) / 10,
        ;
        Some(s)
    } else {
        None
    }
}

/// Worker threads for writing an archive: the available parallelism, or 8 where
/// it is unknown.
pub fn worker_threads(available: Option<usize>) -> (r: u32)
    ensures
        r == match available {
            Some(n) => if n > u32::MAX {
                u32::MAX
            } else {
                n as u32
            },
            None => 8,
        },
{
    match available {
        Some(n) => if n > u32::MAX as usize {
            u32::MAX
        } else {
            n as u32
        },
        None => 8,
    }
}


/// A temporary archive, removed once it has served.
#[derive(Debug)]
pub struct TempFile {
    pub path: String,
}

impl TempFile {
    /// File name of the temporary non-solid copy of an archive, made unique by
    /// `token`.
    pub fn name_for(token: &str) -> (r: String)
        ensures
            r@ == "rinb_tmp_file_"@ + token@ + ".wim"@,
    {
        let mut r = String::from_str("rinb_tmp_file_");
        r.append(token);
        r.append(".wim");
        r
    }
}

} // verus!
