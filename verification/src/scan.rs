//! The scan planner: pairing the discovered files, the per-asset work list,
//! special-folder detection, and the progress schedule of one folder scan.

use vstd::prelude::*;
use crate::builder::AssetBuilder;
use crate::paths::join_of;
use crate::pairing::{
    StemMap, group_files_by_name, group_map, paired_names, build_unpaired_files, unpaired_of,
};
use crate::text::sorted_strings;
use crate::types::{FileExtensions, SpecialFolder, UnpairedFiles};

verus! {

/// The work order for one paired asset: the pairing name, the two source
/// files, and the sidecar file the record goes to.
pub struct PairPlan {
    pub name: String,
    pub archive_file: String,
    pub image_file: String,
    pub asset_file_name: String,
}

/// Every name shared by the two groupings has a pair planned for it.
pub open spec fn pairs_complete(
    pairs: Seq<PairPlan>,
    am: Map<Seq<char>, Seq<char>>,
    im: Map<Seq<char>, Seq<char>>,
) -> bool {
    forall|k: Seq<char>|
        am.contains_key(k) && im.contains_key(k) ==> exists|i: int|
            0 <= i < pairs.len() && pairs[i].name@ == k
}

/// A special-folder record with the given name is in the list.
pub open spec fn has_special(r: Seq<SpecialFolder>, name: Seq<char>) -> bool {
    exists|i: int| 0 <= i < r.len() && r[i].name@ == name
}

/// The names of a pair list.
pub open spec fn plan_names(pairs: Seq<PairPlan>) -> Seq<String> {
    pairs.map_values(|p: PairPlan| p.name)
}

/// Everything one folder scan decides before touching any file: the pairs
/// to build and the unpaired-files report.
pub struct ScanPlan {
    pub pairs: Vec<PairPlan>,
    pub unpaired: UnpairedFiles,
}

/// The scanning repository: extension allow-lists and the record builder.
pub struct RustAssetRepository {
    pub file_extensions: FileExtensions,
    pub asset_builder: AssetBuilder,
}

impl RustAssetRepository {
    /// A repository with the default allow-lists.
    pub fn new() -> (r: Self)
        ensures
            r.file_extensions.is_default(),
            r.asset_builder.file_extensions.is_default(),
    {
        RustAssetRepository {
            file_extensions: FileExtensions::default(),
            asset_builder: AssetBuilder::new(),
        }
    }

    /// Plans one scan from the discovered archive and image file names:
    /// the pairs are exactly the names the two groupings share, each
    /// carrying the grouped files and the `name.asset` sidecar name, and
    /// the unpaired report holds every file whose pairing key found no
    /// partner, sorted, with its counts.
    pub fn plan_scan(&self, archive_files: &Vec<String>, image_files: &Vec<String>) -> (r:
        ScanPlan)
        ensures
            ({
                let am = group_map(archive_files@);
                let im = group_map(image_files@);
                &&& forall|i: int, j: int|
                    0 <= i < j < r.pairs@.len() ==> r.pairs@[i].name@ != r.pairs@[j].name@
                &&& forall|i: int|
                    0 <= i < r.pairs@.len() ==> {
                        let p = #[trigger] r.pairs@[i];
                        &&& am.contains_key(p.name@)
                        &&& im.contains_key(p.name@)
                        &&& p.archive_file@ == am[p.name@]
                        &&& p.image_file@ == im[p.name@]
                        &&& p.asset_file_name@ == p.name@ + ".asset"@
                    }
                &&& pairs_complete(r.pairs@, am, im)
                &&& sorted_strings(r.unpaired.archives@)
                &&& sorted_strings(r.unpaired.images@)
                &&& r.unpaired.archives@.to_multiset() == unpaired_of(
                    archive_files@,
                    plan_names(r.pairs@),
                ).to_multiset()
                &&& r.unpaired.images@.to_multiset() == unpaired_of(
                    image_files@,
                    plan_names(r.pairs@),
                ).to_multiset()
                &&& r.unpaired.total_archives == r.unpaired.archives@.len()
                &&& r.unpaired.total_images == r.unpaired.images@.len()
            }),
    {
        let am = group_files_by_name(archive_files);
        let im = group_files_by_name(image_files);
        let names = paired_names(&am, &im);
        let mut pairs: Vec<PairPlan> = Vec::new();
        let mut i: usize = 0;
        while i < names.len()
            invariant
                i <= names@.len(),
                am.wf(),
                im.wf(),
                am@ == group_map(archive_files@),
                im@ == group_map(image_files@),
                forall|p: int, q: int| 0 <= p < q < names@.len() ==> names@[p]@ != names@[q]@,
                forall|p: int|
                    0 <= p < names@.len() ==> am@.contains_key(#[trigger] names@[p]@)
                        && im@.contains_key(names@[p]@),
                pairs@.len() == i,
                forall|p: int| 0 <= p < i ==> #[trigger] pairs@[p].name == names@[p],
                forall|p: int|
                    0 <= p < i ==> {
                        let q = #[trigger] pairs@[p];
                        &&& am@.contains_key(q.name@)
                        &&& im@.contains_key(q.name@)
                        &&& q.archive_file@ == am@[q.name@]
                        &&& q.image_file@ == im@[q.name@]
                        &&& q.asset_file_name@ == q.name@ + ".asset"@
                    },
            decreases names@.len() - i,
        {
            let archive_file = match am.get(&names[i]) {
                Some(a) => a.clone(),
                None => {
                    proof {
                        assert(false);
                    }
                    String::new()
                },
            };
            let image_file = match im.get(&names[i]) {
                Some(a) => a.clone(),
                None => {
                    proof {
                        assert(false);
                    }
                    String::new()
                },
            };
            let mut v = crate::text::string_to_chars(names[i].as_str());
            v.push('.');
            v.push('a');
            v.push('s');
            v.push('s');
            v.push('e');
            v.push('t');
            let asset_file_name = crate::text::chars_to_string(&v);
            proof {
                reveal_strlit(".asset");
                assert(asset_file_name@ =~= names@[i as int]@ + ".asset"@);
            }
            pairs.push(
                PairPlan { name: names[i].clone(), archive_file, image_file, asset_file_name },
            );
            i = i + 1;
        }
        let unpaired = build_unpaired_files(archive_files, image_files, &names);
        proof {
            assert(plan_names(pairs@) =~= names@);
            assert(pairs_complete(pairs@, group_map(archive_files@), group_map(image_files@)))
                by {
                assert forall|k: Seq<char>|
                    group_map(archive_files@).contains_key(k) && group_map(
                        image_files@,
                    ).contains_key(k) implies exists|i2: int|
                    0 <= i2 < pairs@.len() && pairs@[i2].name@ == k by {
                    let p = choose|p: int| 0 <= p < names@.len() && names@[p]@ == k;
                    assert(pairs@[p].name@ == k);
                }
            }
        }
        ScanPlan { pairs, unpaired }
    }
}

/// Whether any recognised texture folder is present, so that an asset's
/// textures live outside its archive.
pub fn has_texture_folders(tex_present: bool, textures_present: bool, maps_present: bool) -> (r:
    bool)
    ensures
        r == (tex_present || textures_present || maps_present),
{
    tex_present || textures_present || maps_present
}

/// Builds the special-folder records for the recognised subdirectories
/// among `tex`, `textures` and `maps` that are present, each reported
/// independently with its path under the scanned folder.
pub fn scan_for_special_folders(
    folder_path: &str,
    tex_present: bool,
    textures_present: bool,
    maps_present: bool,
) -> (r: Vec<SpecialFolder>)
    ensures
        forall|i: int|
            0 <= i < r@.len() ==> #[trigger] r@[i].folder_type@ == "special_folder"@,
        forall|i: int|
            0 <= i < r@.len() ==> #[trigger] r@[i].folder_path@ == join_of(
                folder_path@,
                r@[i].name@,
            ),
        forall|i: int|
            0 <= i < r@.len() ==> (#[trigger] r@[i].name@ == "tex"@ || r@[i].name@ == "textures"@
                || r@[i].name@ == "maps"@),
        forall|i: int, j: int| 0 <= i < j < r@.len() ==> r@[i].name@ != r@[j].name@,
        tex_present <==> has_special(r@, "tex"@),
        textures_present <==> has_special(r@, "textures"@),
        maps_present <==> has_special(r@, "maps"@),
        tex_present ==> r@[0].name@ == "tex"@,
        textures_present ==> r@[if tex_present {
            1int
        } else {
            0int
        }].name@ == "textures"@,
        maps_present ==> r@[r@.len() - 1].name@ == "maps"@,
{
    proof {
        reveal_strlit("tex");
        reveal_strlit("textures");
        reveal_strlit("maps");
        assert("tex"@.len() == 3 && "textures"@.len() == 8 && "maps"@.len() == 4);
        assert("tex"@ != "textures"@ && "tex"@ != "maps"@ && "textures"@ != "maps"@);
    }
    let mut r: Vec<SpecialFolder> = Vec::new();
    if tex_present {
        r.push(make_special_folder(folder_path, "tex"));
    }
    if textures_present {
        r.push(make_special_folder(folder_path, "textures"));
    }
    if maps_present {
        r.push(make_special_folder(folder_path, "maps"));
    }
    proof {
        if tex_present {
            assert(r@[0].name@ == "tex"@);
            assert(has_special(r@, "tex"@));
        } else {
            assert(!has_special(r@, "tex"@)) by {
                assert forall|i: int| 0 <= i < r@.len() implies r@[i].name@ != "tex"@ by {}
            }
        }
        if textures_present {
            let idx: int = if tex_present {
                1
            } else {
                0
            };
            assert(r@[idx].name@ == "textures"@);
            assert(has_special(r@, "textures"@));
        } else {
            assert(!has_special(r@, "textures"@)) by {
                assert forall|i: int| 0 <= i < r@.len() implies r@[i].name@ != "textures"@ by {}
            }
        }
        if maps_present {
            let idx: int = r@.len() - 1;
            assert(r@[idx].name@ == "maps"@);
            assert(has_special(r@, "maps"@));
        } else {
            assert(!has_special(r@, "maps"@)) by {
                assert forall|i: int| 0 <= i < r@.len() implies r@[i].name@ != "maps"@ by {}
            }
        }
    }
    r
}

/// Builds one special-folder record.
fn make_special_folder(folder_path: &str, name: &str) -> (r: SpecialFolder)
    ensures
        r.folder_type@ == "special_folder"@,
        r.name@ == name@,
        r.folder_path@ == join_of(folder_path@, name@),
{
    SpecialFolder {
        folder_type: String::from_str("special_folder"),
        name: String::from_str(name),
        folder_path: crate::paths::path_join(folder_path, name),
    }
}

/// The stages of one scan, in order.
pub enum ScanStage {
    Scanning,
    FilesScanned,
    Processing,
    Converting,
    SpecialFolders,
    UnpairedList,
    Completed,
}

/// The progress schedule: the percentage each stage reports, out of 100.
pub fn progress_point(stage: &ScanStage) -> (r: (u32, u32))
    ensures
        r.1 == 100,
        r.0 == match stage {
            ScanStage::Scanning => 0u32,
            ScanStage::FilesScanned => 20u32,
            ScanStage::Processing => 25u32,
            ScanStage::Converting => 80u32,
            ScanStage::SpecialFolders => 95u32,
            ScanStage::UnpairedList => 97u32,
            ScanStage::Completed => 100u32,
        },
{
    let c: u32 = match stage {
        ScanStage::Scanning => 0,
        ScanStage::FilesScanned => 20,
        ScanStage::Processing => 25,
        ScanStage::Converting => 80,
        ScanStage::SpecialFolders => 95,
        ScanStage::UnpairedList => 97,
        ScanStage::Completed => 100,
    };
    (c, 100)
}

} // verus!
