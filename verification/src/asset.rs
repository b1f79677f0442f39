//! The asset model: one downloadable file's manifest record, and a
//! revision's inventory partitioned into wad archives and everything else.
use vstd::prelude::*;

verus! {

/// One downloadable file as the vendor manifest describes it.
#[derive(Debug)]
pub struct Asset {
    pub filename: String,
    pub file_type: String,
    pub size: u64,
    pub header_size: u64,
    pub compressed_header_size: u64,
    pub crc: u64,
    pub header_crc: u64,
}

impl Clone for Asset {
    fn clone(&self) -> (r: Self)
        ensures
            r == *self,
    {
        Asset {
            filename: self.filename.clone(),
            file_type: self.file_type.clone(),
            size: self.size,
            header_size: self.header_size,
            compressed_header_size: self.compressed_header_size,
            crc: self.crc,
            header_crc: self.header_crc,
        }
    }
}

impl Default for Asset {
    /// An asset with empty strings and zero in every numeric field.
    fn default() -> (r: Self)
        ensures
            r.filename@ == Seq::<char>::empty(),
            r.file_type@ == Seq::<char>::empty(),
            r.size == 0,
            r.header_size == 0,
            r.compressed_header_size == 0,
            r.crc == 0,
            r.header_crc == 0,
    {
        Asset {
            filename: String::new(),
            file_type: String::new(),
            size: 0,
            header_size: 0,
            compressed_header_size: 0,
            crc: 0,
            header_crc: 0,
        }
    }
}

/// A revision's full inventory: wad archives and utility files, each in
/// manifest order.
#[derive(Debug)]
pub struct AssetList {
    pub wads: Vec<Asset>,
    pub utils: Vec<Asset>,
}

impl Clone for AssetList {
    fn clone(&self) -> (r: Self)
        ensures
            r.wads@ == self.wads@,
            r.utils@ == self.utils@,
    {
        let w = self.wads.clone();
        let u = self.utils.clone();
        proof {
            assert(w@ =~= self.wads@);
            assert(u@ =~= self.utils@);
        }
        AssetList { wads: w, utils: u }
    }
}

impl Default for AssetList {
    /// An empty inventory.
    fn default() -> (r: Self)
        ensures
            r.wads@ == Seq::<Asset>::empty(),
            r.utils@ == Seq::<Asset>::empty(),
    {
        AssetList { wads: Vec::new(), utils: Vec::new() }
    }
}

impl AssetList {
    /// The whole inventory as one sequence, wads first.
    pub open spec fn all_spec(&self) -> Seq<Asset> {
        self.wads@ + self.utils@
    }

    /// The first asset of the inventory carrying this filename.
    pub open spec fn find_by_name_spec(&self, name: Seq<char>) -> Option<Asset> {
        find_first_by_name(self.all_spec(), name)
    }

    /// Returns a combined list of all assets, wads first.
    pub fn all(&self) -> (r: Vec<Asset>)
        ensures
            r@ == self.all_spec(),
    {
        let mut r: Vec<Asset> = Vec::new();
        let mut i: usize = 0;
        while i < self.wads.len()
            invariant
                i <= self.wads@.len(),
                r@ =~= self.wads@.subrange(0, i as int),
            decreases self.wads@.len() - i,
        {
            r.push(self.wads[i].clone());
            i = i + 1;
        }
        let mut j: usize = 0;
        while j < self.utils.len()
            invariant
                j <= self.utils@.len(),
                r@ =~= self.wads@ + self.utils@.subrange(0, j as int),
            decreases self.utils@.len() - j,
        {
            r.push(self.utils[j].clone());
            j = j + 1;
        }
        proof {
            assert(r@ =~= self.all_spec());
        }
        r
    }

    /// The first asset with the given filename, if the inventory has one.
    pub fn find_by_name(&self, name: &str) -> (r: Option<&Asset>)
        ensures
            match r {
                Some(a) => self.find_by_name_spec(name@) == Some(*a),
                None => self.find_by_name_spec(name@) is None,
            },
    {
        let ghost all = self.all_spec();
        let mut i: usize = 0;
        while i < self.wads.len()
            invariant
                i <= self.wads@.len(),
                all == self.all_spec(),
                forall|k: int| 0 <= k < i ==> (#[trigger] all[k]).filename@ != name@,
            decreases self.wads@.len() - i,
        {
            if crate::strutil::str_eq(self.wads[i].filename.as_str(), name) {
                proof {
                    lemma_find_first_at(all, name@, i as int);
                }
                return Some(&self.wads[i]);
            }
            i = i + 1;
        }
        let mut j: usize = 0;
        while j < self.utils.len()
            invariant
                j <= self.utils@.len(),
                all == self.all_spec(),
                forall|k: int|
                    0 <= k < self.wads@.len() + j ==> (#[trigger] all[k]).filename@ != name@,
            decreases self.utils@.len() - j,
        {
            if crate::strutil::str_eq(self.utils[j].filename.as_str(), name) {
                proof {
                    lemma_find_first_at(all, name@, self.wads@.len() + j);
                }
                return Some(&self.utils[j]);
            }
            j = j + 1;
        }
        proof {
            lemma_find_first_none(all, name@);
        }
        None
    }

    /// Whether the inventory has no assets at all.
    pub fn is_empty(&self) -> (r: bool)
        ensures
            r == (self.all_spec().len() == 0),
    {
        self.wads.is_empty() && self.utils.is_empty()
    }
}

/// The mathematical shape of an asset, over sequences.
pub struct AssetV {
    pub filename: Seq<char>,
    pub file_type: Seq<char>,
    pub size: u64,
    pub header_size: u64,
    pub compressed_header_size: u64,
    pub crc: u64,
    pub header_crc: u64,
}

pub open spec fn asset_view(a: Asset) -> AssetV {
    AssetV {
        filename: a.filename@,
        file_type: a.file_type@,
        size: a.size,
        header_size: a.header_size,
        compressed_header_size: a.compressed_header_size,
        crc: a.crc,
        header_crc: a.header_crc,
    }
}

/// The views of a sequence of assets, elementwise.
pub open spec fn assets_view(s: Seq<Asset>) -> Seq<AssetV> {
    Seq::new(s.len(), |i: int| asset_view(s[i]))
}

/// The asset a manifest record starts from: empty strings, zero numbers.
pub open spec fn empty_asset_v() -> AssetV {
    AssetV {
        filename: Seq::empty(),
        file_type: Seq::empty(),
        size: 0,
        header_size: 0,
        compressed_header_size: 0,
        crc: 0,
        header_crc: 0,
    }
}

/// The first asset of `s` whose filename is `name`.
pub open spec fn find_first_by_name(s: Seq<Asset>, name: Seq<char>) -> Option<Asset>
    decreases s.len(),
{
    if s.len() == 0 {
        None
    } else if s[0].filename@ == name {
        Some(s[0])
    } else {
        find_first_by_name(s.skip(1), name)
    }
}

pub proof fn lemma_find_first_at(s: Seq<Asset>, name: Seq<char>, i: int)
    requires
        0 <= i < s.len(),
        s[i].filename@ == name,
        forall|k: int| 0 <= k < i ==> (#[trigger] s[k]).filename@ != name,
    ensures
        find_first_by_name(s, name) == Some(s[i]),
    decreases s.len(),
{
    if i > 0 {
        lemma_find_first_at(s.skip(1), name, i - 1);
    }
}

pub proof fn lemma_find_first_none(s: Seq<Asset>, name: Seq<char>)
    requires
        forall|k: int| 0 <= k < s.len() ==> (#[trigger] s[k]).filename@ != name,
    ensures
        find_first_by_name(s, name) is None,
    decreases s.len(),
{
    if s.len() > 0 {
        lemma_find_first_none(s.skip(1), name);
    }
}

/// Facts every caller of `find_first_by_name` leans on: a hit carries the
/// searched name and sits in the sequence; a miss means no element has it.
pub proof fn lemma_find_first_by_name_properties(s: Seq<Asset>, name: Seq<char>)
    ensures
        match find_first_by_name(s, name) {
            Some(a) => a.filename@ == name && exists|i: int|
                0 <= i < s.len() && s[i] == a,
            None => forall|i: int| 0 <= i < s.len() ==> (#[trigger] s[i]).filename@ != name,
        },
    decreases s.len(),
{
    if s.len() > 0 {
        lemma_find_first_by_name_properties(s.skip(1), name);
        if s[0].filename@ == name {
            assert(0 <= 0 < s.len() && s[0] == s[0]);
        } else {
            match find_first_by_name(s.skip(1), name) {
                Some(a) => {
                    let i = choose|i: int| 0 <= i < s.skip(1).len() && s.skip(1)[i] == a;
                    assert(s.skip(1)[i] == s[i + 1]);
                    assert(0 <= i + 1 < s.len() && s[i + 1] == a);
                },
                None => {
                    assert forall|i: int| 0 <= i < s.len() implies (#[trigger] s[i]).filename@
                        != name by {
                        if i > 0 {
                            assert(s.skip(1)[i - 1] == s[i]);
                        }
                    }
                },
            }
        }
    }
}

} // verus!
