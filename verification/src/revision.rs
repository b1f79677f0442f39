//! One installed manifest generation and the grammar of its name.
//!
//! A revision's name has the shape `V_r<digits>.Wizard<anything>`; the
//! digits are its number, by which revisions are identified and ordered.
use vstd::prelude::*;
use crate::asset::{AssetList, assets_view};
use crate::fetcher::manifest_lists_spec;
use crate::strutil::{
    all_dec_digits, dec_digits_value, is_dec_digit, parse_u64_digits, path_join, path_join_spec,
    str_to_chars,
};

verus! {

/// One manifest generation installed on disk: the vendor name, the number
/// its name carries, its on-disk root, and its asset inventory.
#[derive(Debug)]
pub struct LocalRevision {
    pub name: String,
    pub revision_number: u64,
    pub path: String,
    pub assets: AssetList,
}

/// The first position at or after `i` holding no decimal digit.
pub open spec fn digit_run_end(s: Seq<char>, i: int) -> int
    decreases s.len() - i,
    when 0 <= i <= s.len()
{
    if i == s.len() {
        i
    } else if is_dec_digit(s[i]) {
        digit_run_end(s, i + 1)
    } else {
        i
    }
}

pub proof fn lemma_digit_run_end_at(s: Seq<char>, i0: int, e: int)
    requires
        0 <= i0 <= e <= s.len(),
        forall|k: int| i0 <= k < e ==> is_dec_digit(#[trigger] s[k]),
        e == s.len() || !is_dec_digit(s[e]),
    ensures
        digit_run_end(s, i0) == e,
    decreases e - i0,
{
    if i0 < e {
        lemma_digit_run_end_at(s, i0 + 1, e);
    }
}


pub open spec fn revision_prefix() -> Seq<char> {
    seq!['V', '_', 'r']
}

pub open spec fn wizard_suffix() -> Seq<char> {
    seq!['.', 'W', 'i', 'z', 'a', 'r', 'd']
}

/// Whether `s` matches `V_r<digits>.Wizard<anything>` with at least one digit.
pub open spec fn revision_name_matches(s: Seq<char>) -> bool {
    s.len() >= 3 && s.subrange(0, 3) == revision_prefix() && {
        let e = digit_run_end(s, 3);
        e > 3 && e + 7 <= s.len() && s.subrange(e, e + 7) == wizard_suffix()
    }
}

/// The number a revision name carries: the digits after `V_r`, read as a
/// decimal `u64`; nothing when the name does not match the pattern or the
/// digits overflow 64 bits.
pub open spec fn captured_revision(s: Seq<char>) -> Option<u64> {
    if revision_name_matches(s) && dec_digits_value(s.subrange(3, digit_run_end(s, 3)))
        <= u64::MAX {
        Some(dec_digits_value(s.subrange(3, digit_run_end(s, 3))) as u64)
    } else {
        None
    }
}

impl LocalRevision {
    /// The invariant every revision of the store carries: its number is what
    /// its name's digits write.
    pub open spec fn wf(&self) -> bool {
        captured_revision(self.name@) == Some(self.revision_number)
    }

    /// Extracts the revision number from a name of the shape
    /// `V_r<digits>.Wizard<anything>`.
    pub fn capture_revision(name: &str) -> (r: Option<u64>)
        ensures
            r == captured_revision(name@),
    {
        let chars: Vec<char> = str_to_chars(name);
        let n: usize = chars.len();
        if n < 3 || chars[0] != 'V' || chars[1] != '_' || chars[2] != 'r' {
            proof {
                if name@.len() >= 3 && name@.subrange(0, 3) == revision_prefix() {
                    assert(name@[0] == 'V' && name@[1] == '_' && name@[2] == 'r') by {
                        assert(name@.subrange(0, 3)[0] == name@[0]);
                        assert(name@.subrange(0, 3)[1] == name@[1]);
                        assert(name@.subrange(0, 3)[2] == name@[2]);
                    }
                }
            }
            return None;
        }
        proof {
            assert(name@.subrange(0, 3) =~= revision_prefix());
        }
        let mut e: usize = 3;
        while e < n
            invariant
                3 <= e <= n,
                n == name@.len(),
                chars@ == name@,
                forall|k: int| 3 <= k < e ==> is_dec_digit(#[trigger] name@[k]),
            ensures
                3 <= e <= n,
                forall|k: int| 3 <= k < e ==> is_dec_digit(#[trigger] name@[k]),
                e == n || !is_dec_digit(name@[e as int]),
            decreases n - e,
        {
            let u: u32 = chars[e] as u32;
            if !(48 <= u && u <= 57) {
                break;
            }
            e = e + 1;
        }
        proof {
            lemma_digit_run_end_at(name@, 3, e as int);
        }
        if e == 3 {
            return None;
        }
        if n < 7 || e > n - 7 {
            return None;
        }
        if chars[e] != '.' || chars[e + 1] != 'W' || chars[e + 2] != 'i' || chars[e + 3] != 'z'
            || chars[e + 4] != 'a' || chars[e + 5] != 'r' || chars[e + 6] != 'd' {
            proof {
                if name@.subrange(e as int, e as int + 7) == wizard_suffix() {
                    assert forall|k: int| 0 <= k < 7 implies name@[e + k] == wizard_suffix()[k] by {
                        assert(name@.subrange(e as int, e as int + 7)[k] == name@[e + k]);
                    }
                }
            }
            return None;
        }
        proof {
            assert(name@.subrange(e as int, e as int + 7) =~= wizard_suffix());
            assert(revision_name_matches(name@));
        }
        parse_u64_digits(&chars, 3, e)
    }

    /// Builds a revision from its name, the save root and an inventory;
    /// nothing when the name does not match the revision pattern.
    pub fn new(name: &str, base_path: &str, assets: AssetList) -> (r: Option<LocalRevision>)
        ensures
            match r {
                Some(rev) => captured_revision(name@) == Some(rev.revision_number) && rev.name@
                    == name@ && rev.path@ == path_join_spec(base_path@, name@) && rev.assets
                    == assets && rev.wf(),
                None => captured_revision(name@) is None,
            },
    {
        let number: u64 = match Self::capture_revision(name) {
            Some(n) => n,
            None => {
                return None;
            },
        };
        Some(
            LocalRevision {
                name: name.to_owned(),
                revision_number: number,
                path: path_join(base_path, name),
                assets,
            },
        )
    }
}

impl LocalRevision {
    /// Rebuilds a revision found on disk from its directory name and the
    /// manifest text stored beside it; a directory without a manifest, or
    /// with one that does not parse, yields an empty inventory.
    pub fn from_name(name: &str, base_path: &str, manifest_xml: Option<&str>) -> (r: Option<
        LocalRevision,
    >)
        ensures
            match r {
                Some(rev) => {
                    &&& captured_revision(name@) == Some(rev.revision_number)
                    &&& rev.name@ == name@
                    &&& rev.path@ == path_join_spec(base_path@, name@)
                    &&& rev.wf()
                    &&& match manifest_xml {
                        None => rev.assets.wads@ == Seq::<crate::asset::Asset>::empty()
                            && rev.assets.utils@ == Seq::<crate::asset::Asset>::empty(),
                        Some(x) => assets_view(rev.assets.wads@) == manifest_lists_spec(x@).0
                            && assets_view(rev.assets.utils@) == manifest_lists_spec(x@).1,
                    }
                },
                None => captured_revision(name@) is None,
            },
    {
        let assets: AssetList = match manifest_xml {
            None => AssetList { wads: Vec::new(), utils: Vec::new() },
            Some(x) => {
                match crate::xml::sanitize_content(x) {
                    Err(_) => {
                        proof {
                            assert(assets_view(Seq::<crate::asset::Asset>::empty())
                                =~= Seq::<crate::asset::AssetV>::empty());
                        }
                        AssetList { wads: Vec::new(), utils: Vec::new() }
                    },
                    Ok(sanitized) => {
                        match crate::xml::parse_xml(sanitized.as_str()) {
                            Err(_) => {
                                proof {
                                    assert(assets_view(Seq::<crate::asset::Asset>::empty())
                                        =~= Seq::<crate::asset::AssetV>::empty());
                                }
                                AssetList { wads: Vec::new(), utils: Vec::new() }
                            },
                            Ok(p) => AssetList { wads: p.0, utils: p.1 },
                        }
                    },
                }
            },
        };
        LocalRevision::new(name, base_path, assets)
    }
}

impl Clone for LocalRevision {
    fn clone(&self) -> (r: Self)
        ensures
            r.name@ == self.name@,
            r.revision_number == self.revision_number,
            r.path@ == self.path@,
            r.assets.wads@ == self.assets.wads@,
            r.assets.utils@ == self.assets.utils@,
            self.wf() ==> r.wf(),
    {
        LocalRevision {
            name: self.name.clone(),
            revision_number: self.revision_number,
            path: self.path.clone(),
            assets: self.assets.clone(),
        }
    }
}

} // verus!
