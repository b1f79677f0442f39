//! The fetch pipeline's decision logic: where the index files live, how a
//! manifest becomes the pipeline's inventory, and which URL and
//! destination every asset download uses. The transfers themselves happen
//! outside the library.
use vstd::prelude::*;
use crate::asset::{AssetList, Asset, assets_view};
use crate::errors::AssetFetcherError;
use crate::patch_info::PatchInfo;
use crate::strutil::{
    chars_range_to_string, ends_with_spec, path_join, path_join_spec, str_to_chars,
};
use crate::xml::{
    doc_assets, parse_document_spec, parse_xml, sanitize_content, sanitize_spec, util_assets,
    wad_assets,
};

verus! {

/// One planned transfer: what to request and where to store it.
#[derive(Debug)]
pub struct DownloadJob {
    pub url: String,
    pub dest_path: String,
}

pub open spec fn bin_suffix() -> Seq<char> {
    seq!['.', 'b', 'i', 'n']
}

pub open spec fn xml_suffix() -> Seq<char> {
    seq!['.', 'x', 'm', 'l']
}

/// The sibling URL of a `.bin` list file: the same URL ending `.xml`; a
/// URL without the suffix stays as it is.
pub open spec fn xml_sibling_spec(u: Seq<char>) -> Seq<char> {
    if ends_with_spec(u, bin_suffix()) {
        u.subrange(0, u.len() - 4) + xml_suffix()
    } else {
        u
    }
}

/// What both manifest forms of one revision describe: the inventory the
/// sanitised re-serialisation parses to, partitioned by suffix; empty
/// when either parse fails.
pub open spec fn manifest_lists_spec(x: Seq<char>) -> (Seq<crate::asset::AssetV>, Seq<
    crate::asset::AssetV,
>) {
    match parse_document_spec(x) {
        None => (Seq::empty(), Seq::empty()),
        Some(root) => match parse_document_spec(sanitize_spec(root)) {
            None => (Seq::empty(), Seq::empty()),
            Some(r2) => (wad_assets(doc_assets(r2)), util_assets(doc_assets(r2))),
        },
    }
}

/// Handles fetching and managing game assets: holds the handshake's URLs
/// and the inventory parsed from the manifest.
#[derive(Debug)]
pub struct AssetFetcher {
    pub list_file_url: String,
    pub url_prefix: String,
    pub revision: String,
    pub assets: AssetList,
    pub save_directory: String,
    pub concurrent_downloads: usize,
}

impl AssetFetcher {
    /// A pipeline for one handshake result, saving under
    /// `<save_directory_name>/<revision>`, with an empty inventory.
    pub fn new(patch_info: &PatchInfo, concurrent_downloads: usize, save_directory_name: &str) -> (r:
        AssetFetcher)
        requires
            concurrent_downloads >= 1,
        ensures
            r.list_file_url@ == patch_info.list_file_url@,
            r.url_prefix@ == patch_info.url_prefix@,
            r.revision@ == patch_info.revision@,
            r.assets.wads@ == Seq::<Asset>::empty(),
            r.assets.utils@ == Seq::<Asset>::empty(),
            r.save_directory@ == path_join_spec(save_directory_name@, patch_info.revision@),
            r.concurrent_downloads == concurrent_downloads,
    {
        AssetFetcher {
            list_file_url: patch_info.list_file_url.clone(),
            url_prefix: patch_info.url_prefix.clone(),
            revision: patch_info.revision.clone(),
            assets: AssetList { wads: Vec::new(), utils: Vec::new() },
            save_directory: path_join(save_directory_name, &patch_info.revision),
            concurrent_downloads,
        }
    }

    /// The URL of the XML index: the list file URL with its `.bin` suffix
    /// replaced by `.xml`.
    pub fn xml_index_url(&self) -> (r: String)
        ensures
            r@ == xml_sibling_spec(self.list_file_url@),
    {
        proof {
            reveal_strlit(".bin");
            reveal_strlit(".xml");
            assert(".bin"@ =~= bin_suffix());
        }
        if crate::strutil::ends_with(self.list_file_url.as_str(), ".bin") {
            let chars: Vec<char> = str_to_chars(self.list_file_url.as_str());
            let mut r: String = chars_range_to_string(&chars, 0, chars.len() - 4);
            r.append(".xml");
            proof {
                assert(r@ =~= xml_sibling_spec(self.list_file_url@));
            }
            r
        } else {
            self.list_file_url.clone()
        }
    }

    /// Sanitises and parses one fetched manifest, replaces the pipeline's
    /// inventory with what the sanitised form describes, and hands the
    /// sanitised text back for saving; the inventory is untouched when
    /// the manifest does not parse.
    pub fn process_xml(&mut self, xml_text: &str) -> (r: Result<String, AssetFetcherError>)
        ensures
            final(self).list_file_url == old(self).list_file_url,
            final(self).url_prefix == old(self).url_prefix,
            final(self).revision == old(self).revision,
            final(self).save_directory == old(self).save_directory,
            final(self).concurrent_downloads == old(self).concurrent_downloads,
            match r {
                Ok(sanitized) => parse_document_spec(xml_text@) matches Some(root)
                    && sanitized@ == sanitize_spec(root) && assets_view(final(self).assets.wads@)
                    == manifest_lists_spec(xml_text@).0 && assets_view(final(self).assets.utils@)
                    == manifest_lists_spec(xml_text@).1,
                Err(e) => e == AssetFetcherError::XMLParser && final(self).assets == old(
                    self,
                ).assets && (parse_document_spec(xml_text@) is None || (
                parse_document_spec(xml_text@) matches Some(root) && parse_document_spec(
                    sanitize_spec(root),
                ) is None)),
            },
    {
        let sanitized: String = match sanitize_content(xml_text) {
            Ok(s) => s,
            Err(e) => {
                return Err(e);
            },
        };
        let lists: (Vec<Asset>, Vec<Asset>) = match parse_xml(sanitized.as_str()) {
            Ok(p) => p,
            Err(e) => {
                return Err(e);
            },
        };
        self.assets.wads = lists.0;
        self.assets.utils = lists.1;
        Ok(sanitized)
    }

    /// The planned transfers for these assets: each from
    /// `<url_prefix>/<filename>` to `<save_directory>/<filename>`, in
    /// order.
    pub fn download_jobs(&self, file_list: &Vec<Asset>) -> (r: Vec<DownloadJob>)
        ensures
            r@.len() == file_list@.len(),
            forall|i: int|
                0 <= i < r@.len() ==> (#[trigger] r@[i]).url@ == path_join_spec(
                    self.url_prefix@,
                    file_list@[i].filename@,
                ) && r@[i].dest_path@ == path_join_spec(
                    self.save_directory@,
                    file_list@[i].filename@,
                ),
    {
        let mut r: Vec<DownloadJob> = Vec::new();
        let mut i: usize = 0;
        while i < file_list.len()
            invariant
                i <= file_list@.len(),
                r@.len() == i,
                forall|k: int|
                    0 <= k < i ==> (#[trigger] r@[k]).url@ == path_join_spec(
                        self.url_prefix@,
                        file_list@[k].filename@,
                    ) && r@[k].dest_path@ == path_join_spec(
                        self.save_directory@,
                        file_list@[k].filename@,
                    ),
            decreases file_list@.len() - i,
        {
            let job = DownloadJob {
                url: path_join(self.url_prefix.as_str(), file_list[i].filename.as_str()),
                dest_path: path_join(self.save_directory.as_str(), file_list[i].filename.as_str()),
            };
            r.push(job);
            i = i + 1;
        }
        r
    }
}

} // verus!
