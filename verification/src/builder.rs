//! The asset-record builder: input validation against the extension
//! allow-lists, the size computation, and graceful thumbnail degradation.

use vstd::prelude::*;
use crate::paths::ext_of;
use crate::text::lower_seq;
use crate::types::{Asset, FileExtensions, ScannerError, exts_contain};

verus! {

/// A character that may not appear in an asset name.
pub open spec fn invalid_name_char(c: char) -> bool {
    c == '/' || c == '\\' || c == ':' || c == '*' || c == '?' || c == '"' || c == '<' || c == '>'
        || c == '|'
}

/// A usable asset name: non-empty and free of reserved characters.
pub open spec fn valid_asset_name(name: Seq<char>) -> bool {
    name.len() > 0 && forall|i: int| 0 <= i < name.len() ==> !invalid_name_char(#[trigger] name[i])
}

/// A file name whose extension, if it has one, is in the allow-list,
/// case-insensitively.  A name without an extension passes.
pub open spec fn ext_allowed(name: Seq<char>, exts: Seq<String>) -> bool {
    match ext_of(name) {
        Some(e) => exts_contain(exts, lower_seq(e)),
        None => true,
    }
}

/// The archive size in hundredths of a megabyte: `bytes / 2^20 * 100`,
/// rounded half-up to the nearest hundredth.
pub open spec fn size_mb_hundredths_of(bytes: nat) -> nat {
    (bytes * 100 + 524288) / 1048576
}

/// The archive size in hundredths of a megabyte, as
/// [`size_mb_hundredths_of`]: the two-decimal megabyte figure the record
/// carries, rounded half-up.
pub fn get_file_size_mb(size_bytes: u64) -> (r: u64)
    ensures
        r == size_mb_hundredths_of(size_bytes as nat),
{
    let size128: u128 = (size_bytes as u128 * 100 + 524288) / 1048576;
    proof {
        assert(size_bytes as u128 * 100 + 524288 < 0x10000_0000_0000_0000_0000)
            by (nonlinear_arith)
            requires
                size_bytes <= u64::MAX,
        ;
        assert(size128 <= u64::MAX) by {
            let x = size_bytes as int * 100 + 524288;
            assert(x < 1048576 * 2251799813685248) by (nonlinear_arith)
                requires
                    size_bytes <= u64::MAX,
                    x == size_bytes as int * 100 + 524288,
            ;
            vstd::arithmetic::div_mod::lemma_multiply_divide_lt(x, 1048576, 2251799813685248);
        }
    }
    size128 as u64
}

/// All inputs of a single asset are acceptable.
pub open spec fn asset_inputs_valid(
    name: Seq<char>,
    archive_file: Seq<char>,
    image_file: Seq<char>,
    archive_exists: bool,
    image_exists: bool,
    folder_is_dir: bool,
    exts: FileExtensions,
) -> bool {
    &&& valid_asset_name(name)
    &&& archive_exists
    &&& image_exists
    &&& folder_is_dir
    &&& ext_allowed(archive_file, exts.archives@)
    &&& ext_allowed(image_file, exts.images@)
}

/// Builds asset records under a configured pair of extension allow-lists.
pub struct AssetBuilder {
    pub file_extensions: FileExtensions,
}

impl AssetBuilder {
    /// A builder with the default allow-lists.
    pub fn new() -> (r: Self)
        ensures
            r.file_extensions.is_default(),
    {
        AssetBuilder { file_extensions: FileExtensions::default() }
    }

    /// A builder with its own allow-lists.
    pub fn with_extensions(file_extensions: FileExtensions) -> (r: Self)
        ensures
            r.file_extensions == file_extensions,
    {
        AssetBuilder { file_extensions }
    }

    /// Checks a name for reserved characters.
    fn name_is_valid(&self, name: &str) -> (r: bool)
        ensures
            r == valid_asset_name(name@),
    {
        let n = crate::paths::s_len(name);
        if n == 0 {
            return false;
        }
        let mut i: usize = 0;
        while i < n
            invariant
                n == name@.len(),
                i <= n,
                forall|j: int| 0 <= j < i ==> !invalid_name_char(#[trigger] name@[j]),
            decreases n - i,
        {
            let c = name.get_char(i);
            if c == '/' || c == '\\' || c == ':' || c == '*' || c == '?' || c == '"' || c == '<'
                || c == '>' || c == '|' {
                return false;
            }
            i = i + 1;
        }
        true
    }

    /// Checks a file name's extension against an allow-list; a name with no
    /// extension passes.
    fn ext_is_allowed(&self, file_name: &str, exts: &Vec<String>) -> (r: bool)
        ensures
            r == ext_allowed(file_name@, exts@),
    {
        match crate::paths::file_extension(file_name) {
            Some(e) => {
                let low = crate::text::to_lower(e.as_str());
                crate::types::list_contains(exts, &low)
            },
            None => true,
        }
    }

    /// An empty record template for a name: blank sources, zero size, the
    /// default thumbnail name, and empty optional fields.
    pub fn create_empty_asset(&self, name: &str) -> (r: Asset)
        ensures
            r.name@ == name@,
            r.archive@.len() == 0,
            r.preview@.len() == 0,
            r.size_mb_hundredths == 0,
            r.thumbnail@ == name@ + ".thumb"@,
            r.stars is None,
            r.color is None,
            r.textures_in_archive == false,
            r.meta@.len() == 0,
    {
        let mut v = crate::text::string_to_chars(name);
        v.push('.');
        v.push('t');
        v.push('h');
        v.push('u');
        v.push('m');
        v.push('b');
        let thumbnail = crate::text::chars_to_string(&v);
        proof {
            reveal_strlit(".thumb");
            assert(thumbnail@ =~= name@ + ".thumb"@);
        }
        Asset {
            name: String::from_str(name),
            archive: String::new(),
            preview: String::new(),
            size_mb_hundredths: 0,
            thumbnail,
            stars: None,
            color: None,
            textures_in_archive: false,
            meta: Vec::new(),
        }
    }

    /// Validates the inputs of a single asset: the name must be non-empty
    /// and free of reserved characters, the files and the folder must be
    /// there, and both extensions must be allowed.  The first failure in
    /// that order names the error: bad name or extension is a validation
    /// error, a missing file or folder is a not-found error.
    pub fn validate_asset_inputs(
        &self,
        name: &str,
        archive_file: &str,
        image_file: &str,
        archive_exists: bool,
        image_exists: bool,
        folder_is_dir: bool,
    ) -> (r: Result<(), ScannerError>)
        ensures
            r is Ok <==> asset_inputs_valid(
                name@,
                archive_file@,
                image_file@,
                archive_exists,
                image_exists,
                folder_is_dir,
                self.file_extensions,
            ),
            !valid_asset_name(name@) ==> r is Err && r->Err_0 is Validation,
            valid_asset_name(name@) && !archive_exists ==> r is Err && r->Err_0 is NotFound,
            valid_asset_name(name@) && archive_exists && !image_exists ==> r is Err
                && r->Err_0 is NotFound,
            valid_asset_name(name@) && archive_exists && image_exists && !folder_is_dir ==> r
                is Err && r->Err_0 is NotFound,
            r is Err ==> (r->Err_0 is Validation || r->Err_0 is NotFound),
    {
        if !self.name_is_valid(name) {
            return Err(
                ScannerError::Validation(
                    String::from_str("asset name is empty or contains invalid characters"),
                ),
            );
        }
        if !archive_exists {
            return Err(ScannerError::NotFound(String::from_str("archive file does not exist")));
        }
        if !image_exists {
            return Err(ScannerError::NotFound(String::from_str("image file does not exist")));
        }
        if !folder_is_dir {
            return Err(ScannerError::NotFound(String::from_str("folder does not exist")));
        }
        if !self.ext_is_allowed(archive_file, &self.file_extensions.archives) {
            return Err(
                ScannerError::Validation(String::from_str("unsupported archive extension")),
            );
        }
        if !self.ext_is_allowed(image_file, &self.file_extensions.images) {
            return Err(ScannerError::Validation(String::from_str("unsupported image extension")));
        }
        Ok(())
    }

    /// Builds the record of one asset from validated inputs and measured
    /// facts: the archive size in bytes, whether textures live outside the
    /// archive, and the thumbnail name if one was generated; without one
    /// the record degrades to the default `name.thumb`.
    ///
    /// The size lands in the record rounded half-up to hundredths of a
    /// megabyte; the optional fields start empty.
    pub fn create_single_asset(
        &self,
        name: &str,
        archive_file: &str,
        image_file: &str,
        archive_exists: bool,
        image_exists: bool,
        folder_is_dir: bool,
        archive_size_bytes: u64,
        textures_external: bool,
        thumbnail: Option<String>,
    ) -> (r: Result<Asset, ScannerError>)
        ensures
            r is Ok <==> asset_inputs_valid(
                name@,
                archive_file@,
                image_file@,
                archive_exists,
                image_exists,
                folder_is_dir,
                self.file_extensions,
            ),
            r is Ok ==> {
                let a = r->Ok_0;
                &&& a.name@ == name@
                &&& a.archive@ == archive_file@
                &&& a.preview@ == image_file@
                &&& a.size_mb_hundredths == size_mb_hundredths_of(archive_size_bytes as nat)
                &&& a.thumbnail@ == match thumbnail {
                    Some(t) => t@,
                    None => name@ + ".thumb"@,
                }
                &&& a.stars is None
                &&& a.color is None
                &&& a.textures_in_archive == !textures_external
                &&& a.meta@.len() == 0
            },
            r is Err ==> (r->Err_0 is Validation || r->Err_0 is NotFound),
    {
        if let Err(e) = self.validate_asset_inputs(
            name,
            archive_file,
            image_file,
            archive_exists,
            image_exists,
            folder_is_dir,
        ) {
            return Err(e);
        }
        let size_mb_hundredths: u64 = get_file_size_mb(archive_size_bytes);
        let thumb = match thumbnail {
            Some(t) => t,
            None => {
                let t = crate::text::string_to_chars(name);
                let mut v = t;
                v.push('.');
                v.push('t');
                v.push('h');
                v.push('u');
                v.push('m');
                v.push('b');
                let s = crate::text::chars_to_string(&v);
                proof {
                    reveal_strlit(".thumb");
                    assert(s@ =~= name@ + ".thumb"@);
                }
                s
            },
        };
        Ok(
            Asset {
                name: String::from_str(name),
                archive: String::from_str(archive_file),
                preview: String::from_str(image_file),
                size_mb_hundredths,
                thumbnail: thumb,
                stars: None,
                color: None,
                textures_in_archive: !textures_external,
                meta: Vec::new(),
            },
        )
    }
}

} // verus!
