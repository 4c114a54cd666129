//! File discovery support and pairing: extension filtering, grouping file
//! names by case-normalized stem, the pairing intersection, and the
//! unpaired-files report.

use vstd::prelude::*;
use crate::paths::{stem_of, ext_of, file_stem, file_extension};
use crate::text::{lower_seq, to_lower, sorted_strings, sort_strings};
use crate::types::{exts_contain, UnpairedFiles};

verus! {

/// The file name carries an extension in `exts`, compared case-insensitively.
pub open spec fn valid_ext(name: Seq<char>, exts: Seq<String>) -> bool {
    match ext_of(name) {
        Some(e) => exts_contain(exts, lower_seq(e)),
        None => false,
    }
}

/// Whether a file name has one of the given extensions, compared after an
/// ASCII-only lower-casing of the extension.
pub fn has_valid_extension(file_name: &str, extensions: &Vec<String>) -> (r: bool)
    ensures
        r == valid_ext(file_name@, extensions@),
{
    match file_extension(file_name) {
        Some(e) => {
            let low = to_lower(e.as_str());
            crate::types::list_contains(extensions, &low)
        },
        None => false,
    }
}

/// The pairing key of a file name: its stem, lower-cased.
///
/// The fold is ASCII-only (`A`..`Z` to `a`..`z`): two stems that differ
/// only in the case of a character outside ASCII keep distinct keys.
pub open spec fn stem_key(name: Seq<char>) -> Seq<char> {
    lower_seq(stem_of(name))
}

/// The grouping of file names by pairing key, later names winning.
pub open spec fn group_map(files: Seq<String>) -> Map<Seq<char>, Seq<char>>
    decreases files.len(),
{
    if files.len() == 0 {
        Map::empty()
    } else {
        group_map(files.drop_last()).insert(stem_key(files.last()@), files.last()@)
    }
}

/// A map from pairing keys to file names, with each key held once.
pub struct StemMap {
    entries: Vec<(String, String)>,
}

impl View for StemMap {
    type V = Map<Seq<char>, Seq<char>>;

    closed spec fn view(&self) -> Map<Seq<char>, Seq<char>> {
        map_of(self.entries@)
    }
}

/// The map an entry list denotes, later entries winning.
pub closed spec fn map_of(s: Seq<(String, String)>) -> Map<Seq<char>, Seq<char>>
    decreases s.len(),
{
    if s.len() == 0 {
        Map::empty()
    } else {
        map_of(s.drop_last()).insert(s.last().0@, s.last().1@)
    }
}

/// Every entry key is in the denoted map's domain, and vice versa.
proof fn lemma_map_of_dom(s: Seq<(String, String)>)
    ensures
        forall|k: Seq<char>|
            #[trigger] map_of(s).contains_key(k) <==> exists|i: int|
                0 <= i < s.len() && s[i].0@ == k,
    decreases s.len(),
{
    if s.len() > 0 {
        let d = s.drop_last();
        lemma_map_of_dom(d);
        assert forall|k: Seq<char>| #[trigger]
            map_of(s).contains_key(k) implies exists|i: int| 0 <= i < s.len() && s[i].0@ == k by {
            if k == s.last().0@ {
                assert(s[s.len() - 1].0@ == k);
            } else {
                assert(map_of(d).contains_key(k));
                let i = choose|i: int| 0 <= i < d.len() && d[i].0@ == k;
                assert(d[i] == s[i]);
                assert(s[i].0@ == k);
            }
        }
        assert forall|k: Seq<char>|
            (exists|i: int| 0 <= i < s.len() && s[i].0@ == k) implies #[trigger] map_of(
            s,
        ).contains_key(k) by {
            let i = choose|i: int| 0 <= i < s.len() && s[i].0@ == k;
            if i < s.len() - 1 {
                assert(d[i] == s[i]);
                assert(d[i].0@ == k);
                assert(map_of(d).contains_key(k));
            } else {
                assert(k == s.last().0@);
            }
        }
    }
}

/// With unique entry keys, each entry gives the denoted map's value at its
/// key, and the domain has exactly one key per entry.
proof fn lemma_map_of_entries(s: Seq<(String, String)>)
    requires
        forall|i: int, j: int| 0 <= i < j < s.len() ==> s[i].0@ != s[j].0@,
    ensures
        forall|i: int|
            0 <= i < s.len() ==> map_of(s).contains_key(#[trigger] s[i].0@) && map_of(s)[s[i].0@]
                == s[i].1@,
        map_of(s).dom().finite(),
        map_of(s).dom().len() == s.len(),
    decreases s.len(),
{
    lemma_map_of_dom(s);
    if s.len() > 0 {
        assert(forall|i: int, j: int|
            0 <= i < j < s.drop_last().len() ==> s.drop_last()[i].0@ != s.drop_last()[j].0@);
        lemma_map_of_entries(s.drop_last());
        lemma_map_of_dom(s.drop_last());
        assert forall|i: int| 0 <= i < s.len() implies map_of(s).contains_key(#[trigger] s[i].0@)
            && map_of(s)[s[i].0@] == s[i].1@ by {
            if i < s.len() - 1 {
                assert(s.drop_last()[i].0@ == s[i].0@ && s.drop_last()[i].1@ == s[i].1@);
                assert(s[i].0@ != s.last().0@);
            }
        }
        assert(!map_of(s.drop_last()).contains_key(s.last().0@)) by {
            if map_of(s.drop_last()).contains_key(s.last().0@) {
                let i = choose|i: int|
                    0 <= i < s.drop_last().len() && s.drop_last()[i].0@ == s.last().0@;
                assert(s[i].0@ == s[s.len() - 1].0@);
            }
        }
        assert(map_of(s).dom() =~= map_of(s.drop_last()).dom().insert(s.last().0@));
    } else {
        assert(map_of(s).dom() =~= Set::<Seq<char>>::empty());
    }
}

impl StemMap {
    /// Each pairing key is held by at most one entry.
    pub closed spec fn wf(&self) -> bool {
        forall|i: int, j: int|
            0 <= i < j < self.entries@.len() ==> self.entries@[i].0@ != self.entries@[j].0@
    }

    /// An empty map.
    pub fn new() -> (r: StemMap)
        ensures
            r.wf(),
            r@ == Map::<Seq<char>, Seq<char>>::empty(),
    {
        StemMap { entries: Vec::new() }
    }

    /// The position of the entry holding `key`, if any.
    fn find(&self, key: &String) -> (r: Option<usize>)
        ensures
            match r {
                Some(i) => i < self.entries@.len() && self.entries@[i as int].0@ == key@,
                None => forall|i: int|
                    0 <= i < self.entries@.len() ==> self.entries@[i].0@ != key@,
            },
    {
        let mut i: usize = 0;
        while i < self.entries.len()
            invariant
                i <= self.entries@.len(),
                forall|j: int| 0 <= j < i ==> self.entries@[j].0@ != key@,
            decreases self.entries@.len() - i,
        {
            if self.entries[i].0.eq(key) {
                return Some(i);
            }
            i = i + 1;
        }
        None
    }

    /// Binds `key` to `val`, replacing any earlier binding.
    pub fn insert(&mut self, key: String, val: String)
        requires
            old(self).wf(),
        ensures
            final(self).wf(),
            final(self)@ == old(self)@.insert(key@, val@),
    {
        proof {
            lemma_map_of_entries(self.entries@);
        }
        let ghost before = self.entries@;
        match self.find(&key) {
            Some(i) => {
                let _replaced = self.entries.remove(i);
                self.entries.insert(i, (key, val));
                proof {
                    assert(self.entries@ =~= before.update(i as int, (key, val)));
                    lemma_map_of_update(before, i as int, key, val);
                }
            },
            None => {
                self.entries.push((key, val));
                proof {
                    assert(self.entries@.drop_last() =~= before);
                    assert(self@ == old(self)@.insert(key@, val@));
                }
            },
        }
    }

    /// The file name bound to `key`, if any.
    pub fn get(&self, key: &String) -> (r: Option<&String>)
        requires
            self.wf(),
        ensures
            match r {
                Some(v) => self@.contains_key(key@) && self@[key@] == v@,
                None => !self@.contains_key(key@),
            },
    {
        proof {
            lemma_map_of_entries(self.entries@);
            lemma_map_of_dom(self.entries@);
        }
        match self.find(key) {
            Some(i) => Some(&self.entries[i].1),
            None => None,
        }
    }

    /// Whether `key` is bound.
    pub fn contains_key(&self, key: &String) -> (r: bool)
        requires
            self.wf(),
        ensures
            r == self@.contains_key(key@),
    {
        match self.get(key) {
            Some(_) => true,
            None => false,
        }
    }

    /// The number of bound keys.
    pub fn len(&self) -> (r: usize)
        requires
            self.wf(),
        ensures
            r == self@.dom().len(),
    {
        proof {
            lemma_map_of_entries(self.entries@);
        }
        self.entries.len()
    }

    /// The bound keys, one occurrence each, in entry order.
    pub fn keys(&self) -> (r: Vec<String>)
        requires
            self.wf(),
        ensures
            forall|i: int, j: int| 0 <= i < j < r@.len() ==> r@[i]@ != r@[j]@,
            forall|i: int| 0 <= i < r@.len() ==> self@.contains_key(#[trigger] r@[i]@),
            forall|k: Seq<char>| self@.contains_key(k) ==> exists|i: int|
                0 <= i < r@.len() && r@[i]@ == k,
    {
        proof {
            lemma_map_of_entries(self.entries@);
            lemma_map_of_dom(self.entries@);
        }
        let mut r: Vec<String> = Vec::new();
        let mut i: usize = 0;
        while i < self.entries.len()
            invariant
                i <= self.entries@.len(),
                r@.len() == i,
                forall|j: int| 0 <= j < i ==> r@[j]@ == self.entries@[j].0@,
            decreases self.entries@.len() - i,
        {
            r.push(self.entries[i].0.clone());
            i = i + 1;
        }
        proof {
            assert forall|k: Seq<char>| self@.contains_key(k) implies exists|j: int|
                0 <= j < r@.len() && r@[j]@ == k by {
                let j = choose|j: int|
                    0 <= j < self.entries@.len() && self.entries@[j].0@ == k;
                assert(r@[j]@ == k);
            }
        }
        r
    }
}

/// Updating an entry whose key is unchanged updates the denoted map's value.
proof fn lemma_map_of_update(s: Seq<(String, String)>, i: int, key: String, val: String)
    requires
        0 <= i < s.len(),
        s[i].0@ == key@,
        forall|p: int, q: int| 0 <= p < q < s.len() ==> s[p].0@ != s[q].0@,
    ensures
        map_of(s.update(i, (key, val))) == map_of(s).insert(key@, val@),
    decreases s.len(),
{
    let t = s.update(i, (key, val));
    lemma_map_of_entries(s);
    lemma_map_of_dom(s);
    if i == s.len() - 1 {
        assert(t.drop_last() =~= s.drop_last());
        assert(t.last() == (key, val));
        assert(map_of(t) =~= map_of(s).insert(key@, val@)) by {
            assert(map_of(t) == map_of(s.drop_last()).insert(key@, val@));
            lemma_map_of_dom(s.drop_last());
            assert(map_of(s) == map_of(s.drop_last()).insert(s.last().0@, s.last().1@));
            assert(map_of(s).insert(key@, val@) =~= map_of(s.drop_last()).insert(key@, val@));
        }
    } else {
        assert(t.drop_last() =~= s.drop_last().update(i, (key, val)));
        assert(forall|p: int, q: int|
            0 <= p < q < s.drop_last().len() ==> s.drop_last()[p].0@ != s.drop_last()[q].0@);
        assert(s.drop_last()[i].0@ == key@);
        lemma_map_of_update(s.drop_last(), i, key, val);
        assert(t.last() == s.last());
        assert(map_of(t) == map_of(s.drop_last()).insert(key@, val@).insert(
            s.last().0@,
            s.last().1@,
        ));
        assert(s.last().0@ != key@);
        assert(map_of(s.drop_last()).insert(key@, val@).insert(s.last().0@, s.last().1@)
            =~= map_of(s.drop_last()).insert(s.last().0@, s.last().1@).insert(key@, val@));
    }
}

/// Groups file names by pairing key, as [`group_map`]: the lower-cased stem
/// maps to the file name, later files winning on a shared key.
pub fn group_files_by_name(files: &Vec<String>) -> (r: StemMap)
    ensures
        r.wf(),
        r@ == group_map(files@),
{
    let mut r = StemMap::new();
    let mut i: usize = 0;
    proof {
        assert(files@.take(0) =~= Seq::<String>::empty());
    }
    while i < files.len()
        invariant
            i <= files@.len(),
            r.wf(),
            r@ == group_map(files@.take(i as int)),
        decreases files@.len() - i,
    {
        let stem = file_stem(files[i].as_str());
        let key = to_lower(stem.as_str());
        r.insert(key, files[i].clone());
        proof {
            assert(files@.take(i + 1).drop_last() =~= files@.take(i as int));
            assert(files@.take(i + 1).last() == files@[i as int]);
        }
        i = i + 1;
    }
    proof {
        assert(files@.take(files@.len() as int) =~= files@);
    }
    r
}

/// The names under which an archive and an image pair up: the keys the two
/// groupings share.
pub fn paired_names(archives: &StemMap, images: &StemMap) -> (r: Vec<String>)
    requires
        archives.wf(),
        images.wf(),
    ensures
        forall|i: int, j: int| 0 <= i < j < r@.len() ==> r@[i]@ != r@[j]@,
        forall|i: int|
            0 <= i < r@.len() ==> archives@.contains_key(#[trigger] r@[i]@)
                && images@.contains_key(r@[i]@),
        forall|k: Seq<char>|
            archives@.contains_key(k) && images@.contains_key(k) ==> exists|i: int|
                0 <= i < r@.len() && r@[i]@ == k,
{
    let keys = archives.keys();
    let mut r: Vec<String> = Vec::new();
    let mut i: usize = 0;
    while i < keys.len()
        invariant
            i <= keys@.len(),
            archives.wf(),
            images.wf(),
            forall|p: int, q: int| 0 <= p < q < keys@.len() ==> keys@[p]@ != keys@[q]@,
            forall|p: int| 0 <= p < keys@.len() ==> archives@.contains_key(#[trigger] keys@[p]@),
            forall|p: int, q: int| 0 <= p < q < r@.len() ==> r@[p]@ != r@[q]@,
            forall|p: int|
                0 <= p < r@.len() ==> archives@.contains_key(#[trigger] r@[p]@)
                    && images@.contains_key(r@[p]@),
            forall|p: int|
                0 <= p < i ==> (images@.contains_key(#[trigger] keys@[p]@) ==> exists|q: int|
                    0 <= q < r@.len() && r@[q]@ == keys@[p]@),
            forall|p: int|
                0 <= p < r@.len() ==> exists|q: int| 0 <= q < i && keys@[q] == #[trigger] r@[p],
        decreases keys@.len() - i,
    {
        let ghost r0 = r@;
        let hit = images.contains_key(&keys[i]);
        if hit {
            proof {
                assert forall|p: int| 0 <= p < r@.len() implies r@[p]@ != keys@[i as int]@ by {
                    let q = choose|q: int| 0 <= q < i && keys@[q] == r@[p];
                }
            }
            r.push(keys[i].clone());
        }
        proof {
            assert forall|p: int|
                0 <= p < i + 1 && images@.contains_key(#[trigger] keys@[p]@) implies exists|q: int|
                0 <= q < r@.len() && r@[q]@ == keys@[p]@ by {
                if p < i {
                    let q = choose|q: int| 0 <= q < r0.len() && r0[q]@ == keys@[p]@;
                    assert(r@[q]@ == keys@[p]@);
                } else {
                    assert(r@[r@.len() - 1]@ == keys@[p]@);
                }
            }
        }
        i = i + 1;
    }
    proof {
        assert forall|k: Seq<char>|
            archives@.contains_key(k) && images@.contains_key(k) implies exists|j: int|
            0 <= j < r@.len() && r@[j]@ == k by {
            let p = choose|p: int| 0 <= p < keys@.len() && keys@[p]@ == k;
        }
    }
    r
}

/// A name occurs in the list, compared by characters.
pub open spec fn name_in(l: Seq<String>, k: Seq<char>) -> bool {
    exists|i: int| 0 <= i < l.len() && l[i]@ == k
}

/// The file names whose pairing key is not among the paired names.
pub open spec fn unpaired_of(files: Seq<String>, paired: Seq<String>) -> Seq<String> {
    files.filter(|f: String| !name_in(paired, stem_key(f@)))
}

/// Keeps the file names whose pairing key is not among `paired`.
fn filter_unpaired(files: &Vec<String>, paired: &Vec<String>) -> (r: Vec<String>)
    ensures
        r@ == unpaired_of(files@, paired@),
{
    let mut r: Vec<String> = Vec::new();
    let mut i: usize = 0;
    proof {
        reveal(Seq::filter);
        assert(files@.take(0) =~= Seq::<String>::empty());
        assert(r@ =~= unpaired_of(files@.take(0), paired@));
    }
    while i < files.len()
        invariant
            i <= files@.len(),
            r@ == unpaired_of(files@.take(i as int), paired@),
        decreases files@.len() - i,
    {
        let stem = file_stem(files[i].as_str());
        let key = to_lower(stem.as_str());
        let mut found: bool = false;
        let mut j: usize = 0;
        while j < paired.len()
            invariant
                j <= paired@.len(),
                key@ == stem_key(files@[i as int]@),
                i < files@.len(),
                found == exists|q: int| 0 <= q < j && paired@[q]@ == key@,
            decreases paired@.len() - j,
        {
            if paired[j].eq(&key) {
                found = true;
            }
            j = j + 1;
        }
        proof {
            reveal(Seq::filter);
            assert(found == name_in(paired@, stem_key(files@[i as int]@)));
            assert(files@.take(i + 1).drop_last() =~= files@.take(i as int));
            assert(files@.take(i + 1).last() == files@[i as int]);
        }
        if !found {
            r.push(files[i].clone());
        }
        proof {
            reveal(Seq::filter);
            assert(r@ =~= unpaired_of(files@.take(i + 1), paired@));
        }
        i = i + 1;
    }
    proof {
        assert(files@.take(files@.len() as int) =~= files@);
    }
    r
}

/// Builds the unpaired-files report: the archive and image file names whose
/// pairing key is not among `paired`, each list sorted alphabetically, with
/// their counts.
pub fn build_unpaired_files(
    archives: &Vec<String>,
    images: &Vec<String>,
    paired: &Vec<String>,
) -> (r: UnpairedFiles)
    ensures
        sorted_strings(r.archives@),
        sorted_strings(r.images@),
        r.archives@.to_multiset() == unpaired_of(archives@, paired@).to_multiset(),
        r.images@.to_multiset() == unpaired_of(images@, paired@).to_multiset(),
        r.total_archives == r.archives@.len(),
        r.total_images == r.images@.len(),
{
    let mut ua = filter_unpaired(archives, paired);
    let mut ui = filter_unpaired(images, paired);
    sort_strings(&mut ua);
    sort_strings(&mut ui);
    proof {
        ua@.to_multiset_ensures();
        ui@.to_multiset_ensures();
        assert(ua@.len() == ua@.to_multiset().len());
        assert(ui@.len() == ui@.to_multiset().len());
    }
    let ta = ua.len();
    let ti = ui.len();
    UnpairedFiles { archives: ua, images: ui, total_archives: ta, total_images: ti }
}

/// Pairing is case-insensitive: an archive and an image whose stems agree
/// up to ASCII case group under the same pairing key, so they pair.
pub proof fn lemma_pairing_case_insensitive(archive: String, image: String)
    requires
        lower_seq(stem_of(archive@)) == lower_seq(stem_of(image@)),
    ensures
        group_map(seq![archive]).contains_key(stem_key(image@)),
        group_map(seq![image]).contains_key(stem_key(image@)),
{
    assert(group_map(Seq::<String>::empty()) =~= Map::<Seq<char>, Seq<char>>::empty());
    let s = seq![archive];
    assert(s.len() == 1 && s[0] == archive);
    assert(s.drop_last() =~= Seq::<String>::empty());
    assert(s.last() == archive);
    assert(group_map(s) =~= Map::<Seq<char>, Seq<char>>::empty().insert(
        stem_key(archive@),
        archive@,
    ));
    let t = seq![image];
    assert(t.len() == 1 && t[0] == image);
    assert(t.drop_last() =~= Seq::<String>::empty());
    assert(t.last() == image);
    assert(group_map(t) =~= Map::<Seq<char>, Seq<char>>::empty().insert(stem_key(image@), image@));
    assert(stem_key(archive@) == stem_key(image@));
}

} // verus!
