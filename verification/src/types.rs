//! The data model: asset records, special folders, the unpaired-files report,
//! the extension allow-lists and the scanner configuration, with their
//! mathematical views.

use vstd::prelude::*;

verus! {

/// Mathematical view of an [`Asset`].
pub struct AssetView {
    pub name: Seq<char>,
    pub archive: Seq<char>,
    pub preview: Seq<char>,
    /// Archive size in hundredths of a megabyte.
    pub size_mb_hundredths: nat,
    pub thumbnail: Seq<char>,
    pub stars: Option<int>,
    pub color: Option<Seq<char>>,
    pub textures_in_archive: bool,
    pub meta: Seq<(Seq<char>, Seq<char>)>,
}

/// A catalogued asset: one paired archive and preview image, with the
/// metadata the sidecar file carries.
///
/// The archive size is held in hundredths of a megabyte, the precision the
/// sidecar format uses (a number with two decimals).  The open metadata
/// map holds string values: a sidecar whose `meta` member carries a
/// non-string value does not load.
pub struct Asset {
    pub name: String,
    pub archive: String,
    pub preview: String,
    pub size_mb_hundredths: u64,
    pub thumbnail: String,
    pub stars: Option<i32>,
    pub color: Option<String>,
    pub textures_in_archive: bool,
    pub meta: Vec<(String, String)>,
}

/// The view of one metadata pair.
pub open spec fn pair_view(p: (String, String)) -> (Seq<char>, Seq<char>) {
    (p.0@, p.1@)
}

impl View for Asset {
    type V = AssetView;

    open spec fn view(&self) -> AssetView {
        AssetView {
            name: self.name@,
            archive: self.archive@,
            preview: self.preview@,
            size_mb_hundredths: self.size_mb_hundredths as nat,
            thumbnail: self.thumbnail@,
            stars: match self.stars {
                Some(s) => Some(s as int),
                None => None,
            },
            color: match self.color {
                Some(ref c) => Some(c@),
                None => None,
            },
            textures_in_archive: self.textures_in_archive,
            meta: self.meta@.map_values(|p: (String, String)| pair_view(p)),
        }
    }
}

/// A recognised special subdirectory of a scanned folder.
pub struct SpecialFolder {
    pub folder_type: String,
    pub name: String,
    pub folder_path: String,
}

/// Mathematical view of an [`UnpairedFiles`] report.
pub struct UnpairedFilesView {
    pub archives: Seq<Seq<char>>,
    pub images: Seq<Seq<char>>,
    pub total_archives: nat,
    pub total_images: nat,
}

/// The report of files that found no partner in a scan: file names, sorted
/// alphabetically, with their counts.
pub struct UnpairedFiles {
    pub archives: Vec<String>,
    pub images: Vec<String>,
    pub total_archives: usize,
    pub total_images: usize,
}

impl View for UnpairedFiles {
    type V = UnpairedFilesView;

    open spec fn view(&self) -> UnpairedFilesView {
        UnpairedFilesView {
            archives: self.archives.deep_view(),
            images: self.images.deep_view(),
            total_archives: self.total_archives as nat,
            total_images: self.total_images as nat,
        }
    }
}

/// Everything one folder scan produces.
pub struct ScanResult {
    pub assets: Vec<Asset>,
    pub special_folders: Vec<SpecialFolder>,
    pub unpaired_files: UnpairedFiles,
}

/// `e` occurs in the list of extensions `l`, compared by characters.
pub open spec fn exts_contain(l: Seq<String>, e: Seq<char>) -> bool {
    exists|i: int| 0 <= i < l.len() && l[i]@ == e
}

/// The extension allow-lists for archive and preview-image files.
pub struct FileExtensions {
    pub archives: Vec<String>,
    pub images: Vec<String>,
}

impl FileExtensions {
    /// The default allow-lists: `zip`, `rar`, `sbsar`, `7z` archives and
    /// `png`, `jpg`, `jpeg`, `webp` images.
    pub open spec fn is_default(&self) -> bool {
        &&& self.archives@.len() == 4
        &&& self.archives@[0]@ == "zip"@
        &&& self.archives@[1]@ == "rar"@
        &&& self.archives@[2]@ == "sbsar"@
        &&& self.archives@[3]@ == "7z"@
        &&& self.images@.len() == 4
        &&& self.images@[0]@ == "png"@
        &&& self.images@[1]@ == "jpg"@
        &&& self.images@[2]@ == "jpeg"@
        &&& self.images@[3]@ == "webp"@
    }
}

impl Default for FileExtensions {
    /// Builds the default allow-lists.
    fn default() -> (r: Self)
        ensures
            r.is_default(),
    {
        let archives = vec![
            String::from_str("zip"),
            String::from_str("rar"),
            String::from_str("sbsar"),
            String::from_str("7z"),
        ];
        let images = vec![
            String::from_str("png"),
            String::from_str("jpg"),
            String::from_str("jpeg"),
            String::from_str("webp"),
        ];
        FileExtensions { archives, images }
    }
}

/// Whether `e` occurs in `l`, compared by characters.
pub fn list_contains(l: &Vec<String>, e: &String) -> (r: bool)
    ensures
        r == exts_contain(l@, e@),
{
    let mut i: usize = 0;
    while i < l.len()
        invariant
            i <= l@.len(),
            forall|j: int| 0 <= j < i ==> l@[j]@ != e@,
        decreases l@.len() - i,
    {
        if l[i].eq(e) {
            return true;
        }
        i = i + 1;
    }
    false
}

/// The error taxonomy of the scanner: invalid input, a missing file or
/// folder, an I/O failure, an unsupported or undecodable image, or a
/// malformed sidecar.
#[derive(Debug)]
pub enum ScannerError {
    Validation(String),
    NotFound(String),
    Io(String),
    Codec(String),
    Serialization(String),
}

impl ScannerError {
    /// The message carried by the error.
    pub fn message(&self) -> (r: &String)
        ensures
            r == match self {
                ScannerError::Validation(m) => m,
                ScannerError::NotFound(m) => m,
                ScannerError::Io(m) => m,
                ScannerError::Codec(m) => m,
                ScannerError::Serialization(m) => m,
            },
    {
        match self {
            ScannerError::Validation(m) => m,
            ScannerError::NotFound(m) => m,
            ScannerError::Io(m) => m,
            ScannerError::Codec(m) => m,
            ScannerError::Serialization(m) => m,
        }
    }

    /// Whether this is a validation error.
    pub fn is_validation(&self) -> (r: bool)
        ensures
            r == (self is Validation),
    {
        match self {
            ScannerError::Validation(_) => true,
            _ => false,
        }
    }

    /// Whether this is a not-found error.
    pub fn is_not_found(&self) -> (r: bool)
        ensures
            r == (self is NotFound),
    {
        match self {
            ScannerError::NotFound(_) => true,
            _ => false,
        }
    }

    /// Whether this is a codec error.
    pub fn is_codec(&self) -> (r: bool)
        ensures
            r == (self is Codec),
    {
        match self {
            ScannerError::Codec(_) => true,
            _ => false,
        }
    }

    /// Whether this is a serialization error.
    pub fn is_serialization(&self) -> (r: bool)
        ensures
            r == (self is Serialization),
    {
        match self {
            ScannerError::Serialization(_) => true,
            _ => false,
        }
    }
}

/// The scanner configuration: thumbnail size, cache-directory name, the
/// parallelism switch for the host, and the extension allow-lists.
pub struct ScannerConfig {
    pub thumbnail_size: u32,
    pub parallel_processing: bool,
    pub cache_dir_name: String,
    pub file_extensions: FileExtensions,
}

impl Default for ScannerConfig {
    /// Builds the default configuration: 256-pixel thumbnails kept under
    /// `.cache`, parallel processing on, default extension lists.
    fn default() -> (r: Self)
        ensures
            r.thumbnail_size == 256,
            r.parallel_processing == true,
            r.cache_dir_name@ == ".cache"@,
            r.file_extensions.is_default(),
    {
        ScannerConfig {
            thumbnail_size: 256,
            parallel_processing: true,
            cache_dir_name: String::from_str(".cache"),
            file_extensions: FileExtensions::default(),
        }
    }
}

} // verus!
