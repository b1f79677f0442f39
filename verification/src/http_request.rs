//! The older fetcher's manifest model: the shapes the vendor manifest
//! takes after conversion to JSON, and the extraction of its file entries
//! into download lists.
use vstd::prelude::*;
use crate::fetcher::DownloadJob;
use crate::patch_info::Revision;
use crate::strutil::{basename, basename_spec, ends_with_spec, path_join, path_join_spec};
use crate::xml::wad_suffix;

verus! {

/// One downloadable file, with the signed sizes the older model used.
#[derive(Debug)]
pub struct File {
    pub filename: String,
    pub size: i64,
    pub header_size: i64,
    pub compressed_header_size: i64,
    pub crc: i64,
    pub header_crc: i64,
}

/// The mathematical shape of a `File`.
pub struct FileV {
    pub filename: Seq<char>,
    pub size: i64,
    pub header_size: i64,
    pub compressed_header_size: i64,
    pub crc: i64,
    pub header_crc: i64,
}

pub open spec fn file_view(f: File) -> FileV {
    FileV {
        filename: f.filename@,
        size: f.size,
        header_size: f.header_size,
        compressed_header_size: f.compressed_header_size,
        crc: f.crc,
        header_crc: f.header_crc,
    }
}

pub open spec fn files_view(s: Seq<File>) -> Seq<FileV> {
    Seq::new(s.len(), |i: int| file_view(s[i]))
}

/// The wad archives and utility files of one revision.
#[derive(Debug)]
pub struct FileList {
    pub wad_list: Vec<File>,
    pub util_list: Vec<File>,
}

/// A numeric manifest field: its value and its declared type.
#[derive(Debug)]
pub struct Crc {
    pub value: i64,
    pub type_: CrcType,
}

#[derive(Debug, PartialEq, Eq, Structural, Clone, Copy)]
pub enum CrcType {
    Uint,
}

/// A string manifest field: its value and its declared type.
#[derive(Debug)]
pub struct Name {
    pub value: Option<String>,
    pub type_: SrcFileNameType,
}

#[derive(Debug, PartialEq, Eq, Structural, Clone, Copy)]
pub enum SrcFileNameType {
    Str,
}

/// A target-name field that carries only its declared type.
#[derive(Debug)]
pub struct TarFileName {
    pub tar_file_name_type: SrcFileNameType,
}

/// One record of a single-record zone.
#[derive(Debug)]
pub struct PurpleRecord {
    pub version: Option<Crc>,
    pub crc: Option<Crc>,
    pub compressed_header_size: Option<Crc>,
    pub file_type: Option<Crc>,
    pub header_crc: Option<Crc>,
    pub header_size: Option<Crc>,
    pub size: Option<Crc>,
    pub src_file_name: Option<Name>,
    pub tar_file_name: Option<TarFileName>,
}

/// One record of a multi-record zone.
#[derive(Debug)]
pub struct RecordElement {
    pub crc: Option<Crc>,
    pub compressed_header_size: Option<Crc>,
    pub file_type: Option<Crc>,
    pub header_crc: Option<Crc>,
    pub header_size: Option<Crc>,
    pub size: Option<Crc>,
    pub src_file_name: Option<Name>,
    pub tar_file_name: Option<Name>,
    pub name: Option<Name>,
}

/// A zone's records: one, or an array.
#[derive(Debug)]
pub enum RecordUnion {
    PurpleRecord(PurpleRecord),
    RecordElementArray(Vec<RecordElement>),
}

/// One zone of the manifest.
#[derive(Debug)]
pub struct LatestFileList {
    pub record: RecordUnion,
}

/// The whole manifest: its zones, each under its name.
#[derive(Debug)]
pub struct LatestFiles {
    pub latest_file_list: Vec<(String, LatestFileList)>,
}

impl PurpleRecord {
    /// A record that names a source file carries every numeric field.
    pub open spec fn wf(&self) -> bool {
        self.src_file_name matches Some(n) ==> (n.value is Some && self.size is Some
            && self.header_size is Some && self.compressed_header_size is Some
            && self.crc is Some && self.header_crc is Some)
    }
}

impl RecordElement {
    /// A record that names a source file carries every numeric field.
    pub open spec fn wf(&self) -> bool {
        self.src_file_name matches Some(n) ==> (n.value is Some && self.size is Some
            && self.header_size is Some && self.compressed_header_size is Some
            && self.crc is Some && self.header_crc is Some)
    }
}

/// Every record of the array is well formed.
pub open spec fn elements_wf(arr: Vec<RecordElement>) -> bool {
    forall|j: int| 0 <= j < arr@.len() ==> (#[trigger] arr@[j]).wf()
}

/// One manifest entry's records are well formed.
pub open spec fn entry_wf(e: (String, LatestFileList)) -> bool {
    match e.1.record {
        RecordUnion::PurpleRecord(r) => r.wf(),
        RecordUnion::RecordElementArray(arr) => elements_wf(arr),
    }
}

impl LatestFiles {
    pub open spec fn wf(&self) -> bool {
        forall|i: int|
            0 <= i < self.latest_file_list@.len() ==> entry_wf(
                #[trigger] self.latest_file_list@[i],
            )
    }

    /// Decides `wf` at run time, for callers that received the manifest
    /// from outside.
    pub fn wf_check(&self) -> (r: bool)
        ensures
            r == self.wf(),
    {
        let n: usize = self.latest_file_list.len();
        let mut i: usize = 0;
        while i < n
            invariant
                i <= n,
                n == self.latest_file_list@.len(),
                forall|k: int| 0 <= k < i ==> entry_wf(#[trigger] self.latest_file_list@[k]),
            decreases n - i,
        {
            match &self.latest_file_list[i].1.record {
                RecordUnion::PurpleRecord(r) => {
                    if !Self::purple_wf_check(r) {
                        proof {
                            assert(!entry_wf(self.latest_file_list@[i as int]));
                        }
                        return false;
                    }
                },
                RecordUnion::RecordElementArray(arr) => {
                    let m: usize = arr.len();
                    let mut j: usize = 0;
                    while j < m
                        invariant
                            j <= m,
                            m == arr@.len(),
                            i < self.latest_file_list@.len(),
                            self.latest_file_list@[i as int].1.record
                                == RecordUnion::RecordElementArray(*arr),
                            forall|k: int| 0 <= k < j ==> (#[trigger] arr@[k]).wf(),
                        decreases m - j,
                    {
                        if !Self::element_wf_check(&arr[j]) {
                            proof {
                                assert(!entry_wf(self.latest_file_list@[i as int])) by {
                                    if entry_wf(self.latest_file_list@[i as int]) {
                                        assert(elements_wf(*arr));
                                        assert(arr@[j as int].wf());
                                    }
                                }
                            }
                            return false;
                        }
                        j = j + 1;
                    }
                },
            }
            i = i + 1;
        }
        true
    }

    fn purple_wf_check(r: &PurpleRecord) -> (b: bool)
        ensures
            b == r.wf(),
    {
        match &r.src_file_name {
            None => true,
            Some(n) => n.value.is_some() && r.size.is_some() && r.header_size.is_some()
                && r.compressed_header_size.is_some() && r.crc.is_some() && r.header_crc.is_some(),
        }
    }

    fn element_wf_check(r: &RecordElement) -> (b: bool)
        ensures
            b == r.wf(),
    {
        match &r.src_file_name {
            None => true,
            Some(n) => n.value.is_some() && r.size.is_some() && r.header_size.is_some()
                && r.compressed_header_size.is_some() && r.crc.is_some() && r.header_crc.is_some(),
        }
    }
}

/// The file a purple record describes.
pub open spec fn purple_file(r: PurpleRecord) -> FileV {
    FileV {
        filename: r.src_file_name.unwrap().value.unwrap()@,
        size: r.size.unwrap().value,
        header_size: r.header_size.unwrap().value,
        compressed_header_size: r.compressed_header_size.unwrap().value,
        crc: r.crc.unwrap().value,
        header_crc: r.header_crc.unwrap().value,
    }
}

/// The file a record element describes.
pub open spec fn element_file(r: RecordElement) -> FileV {
    FileV {
        filename: r.src_file_name.unwrap().value.unwrap()@,
        size: r.size.unwrap().value,
        header_size: r.header_size.unwrap().value,
        compressed_header_size: r.compressed_header_size.unwrap().value,
        crc: r.crc.unwrap().value,
        header_crc: r.header_crc.unwrap().value,
    }
}

/// The wad entries an element array contributes, in order.
pub open spec fn elems_wads(s: Seq<RecordElement>, j: int) -> Seq<FileV>
    decreases s.len() - j,
    when 0 <= j <= s.len()
{
    if j >= s.len() {
        Seq::empty()
    } else {
        let rest = elems_wads(s, j + 1);
        if s[j].src_file_name is Some && ends_with_spec(element_file(s[j]).filename, wad_suffix()) {
            seq![element_file(s[j])] + rest
        } else {
            rest
        }
    }
}

/// The utility entries an element array contributes, in order.
pub open spec fn elems_utils(s: Seq<RecordElement>, j: int) -> Seq<FileV>
    decreases s.len() - j,
    when 0 <= j <= s.len()
{
    if j >= s.len() {
        Seq::empty()
    } else {
        let rest = elems_utils(s, j + 1);
        if s[j].src_file_name is Some && !ends_with_spec(
            element_file(s[j]).filename,
            wad_suffix(),
        ) {
            seq![element_file(s[j])] + rest
        } else {
            rest
        }
    }
}

/// The wad entries of the whole manifest: every named record, single or
/// from an array, partitioned by the `.wad` suffix.
pub open spec fn entries_wads(entries: Seq<(String, LatestFileList)>, i: int) -> Seq<FileV>
    decreases entries.len() - i,
    when 0 <= i <= entries.len()
{
    if i >= entries.len() {
        Seq::empty()
    } else {
        let rest = entries_wads(entries, i + 1);
        match entries[i].1.record {
            RecordUnion::PurpleRecord(r) => if r.src_file_name is Some && ends_with_spec(
                purple_file(r).filename,
                wad_suffix(),
            ) {
                seq![purple_file(r)] + rest
            } else {
                rest
            },
            RecordUnion::RecordElementArray(arr) => elems_wads(arr@, 0) + rest,
        }
    }
}

/// The utility entries of the whole manifest: every named record whose
/// filename does not end in `.wad`.
pub open spec fn entries_utils(entries: Seq<(String, LatestFileList)>, i: int) -> Seq<FileV>
    decreases entries.len() - i,
    when 0 <= i <= entries.len()
{
    if i >= entries.len() {
        Seq::empty()
    } else {
        let rest = entries_utils(entries, i + 1);
        match entries[i].1.record {
            RecordUnion::PurpleRecord(r) => if r.src_file_name is Some && !ends_with_spec(
                purple_file(r).filename,
                wad_suffix(),
            ) {
                seq![purple_file(r)] + rest
            } else {
                rest
            },
            RecordUnion::RecordElementArray(arr) => elems_utils(arr@, 0) + rest,
        }
    }
}

/// The older fetcher: the handshake's URLs and the file lists read from
/// the converted manifest.
#[derive(Debug)]
pub struct HttpRequest {
    pub list_file_url: String,
    pub url_prefix: String,
    pub files: FileList,
    pub revision: String,
    pub max_concurrent_downloads: usize,
}

impl HttpRequest {
    /// A fetcher for one handshake result, with empty file lists.
    pub fn new(revision: Revision, max_concurrent_downloads: usize) -> (r: HttpRequest)
        ensures
            r.revision == revision.revision,
            r.url_prefix == revision.url_prefix,
            r.list_file_url == revision.list_file_url,
            r.files.wad_list@ == Seq::<File>::empty(),
            r.files.util_list@ == Seq::<File>::empty(),
            r.max_concurrent_downloads == max_concurrent_downloads,
    {
        HttpRequest {
            revision: revision.revision,
            url_prefix: revision.url_prefix,
            list_file_url: revision.list_file_url,
            files: FileList { wad_list: Vec::new(), util_list: Vec::new() },
            max_concurrent_downloads,
        }
    }

    /// Reads the parsed manifest's entries into the fetcher's file lists,
    /// in manifest order: single named records join the wad list, array
    /// records are partitioned by the `.wad` suffix.
    pub fn propogate_filelist(&mut self, parsed: &LatestFiles)
        requires
            parsed.wf(),
        ensures
            final(self).list_file_url == old(self).list_file_url,
            final(self).url_prefix == old(self).url_prefix,
            final(self).revision == old(self).revision,
            final(self).max_concurrent_downloads == old(self).max_concurrent_downloads,
            files_view(final(self).files.wad_list@) == files_view(old(self).files.wad_list@)
                + entries_wads(parsed.latest_file_list@, 0),
            files_view(final(self).files.util_list@) == files_view(old(self).files.util_list@)
                + entries_utils(parsed.latest_file_list@, 0),
    {
        proof {
            reveal_strlit(".wad");
            assert(".wad"@ =~= wad_suffix());
        }
        let ghost entries = parsed.latest_file_list@;
        let ghost wads0 = files_view(old(self).files.wad_list@);
        let ghost utils0 = files_view(old(self).files.util_list@);
        let n: usize = parsed.latest_file_list.len();
        let mut i: usize = 0;
        while i < n
            invariant
                i <= n,
                n == entries.len(),
                entries == parsed.latest_file_list@,
                parsed.wf(),
                self.list_file_url == old(self).list_file_url,
                self.url_prefix == old(self).url_prefix,
                self.revision == old(self).revision,
                self.max_concurrent_downloads == old(self).max_concurrent_downloads,
                wads0 + entries_wads(entries, 0) == files_view(self.files.wad_list@)
                    + entries_wads(entries, i as int),
                utils0 + entries_utils(entries, 0) == files_view(self.files.util_list@)
                    + entries_utils(entries, i as int),
            decreases n - i,
        {
            let ghost cur_wads = files_view(self.files.wad_list@);
            let ghost cur_utils = files_view(self.files.util_list@);
            match &parsed.latest_file_list[i].1.record {
                RecordUnion::PurpleRecord(r) => {
                    proof {
                        assert(entries[i as int].1.record == RecordUnion::PurpleRecord(*r));
                    }
                    proof {
                        assert(entry_wf(entries[i as int]));
                        assert(r.wf());
                    }
                    match &r.src_file_name {
                        Some(name) => {
                            let filename: String = match &name.value {
                                Some(v) => v.clone(),
                                None => {
                                    proof {
                                        assert(false);
                                    }
                                    String::new()
                                },
                            };
                            let file = File {
                                filename,
                                size: Self::crc_value(&r.size),
                                header_size: Self::crc_value(&r.header_size),
                                compressed_header_size: Self::crc_value(
                                    &r.compressed_header_size,
                                ),
                                crc: Self::crc_value(&r.crc),
                                header_crc: Self::crc_value(&r.header_crc),
                            };
                            proof {
                                reveal_strlit(".wad");
                                assert(".wad"@ =~= wad_suffix());
                                assert(file_view(file) == purple_file(*r));
                            }
                            if crate::strutil::ends_with(file.filename.as_str(), ".wad") {
                                self.files.wad_list.push(file);
                                proof {
                                    assert(files_view(self.files.wad_list@) =~= cur_wads + seq![
                                        purple_file(*r),
                                    ]);
                                    assert((cur_wads + seq![purple_file(*r)]) + entries_wads(
                                        entries,
                                        i as int + 1,
                                    ) =~= cur_wads + (seq![purple_file(*r)] + entries_wads(
                                        entries,
                                        i as int + 1,
                                    )));
                                }
                            } else {
                                self.files.util_list.push(file);
                                proof {
                                    assert(files_view(self.files.util_list@) =~= cur_utils + seq![
                                        purple_file(*r),
                                    ]);
                                    assert((cur_utils + seq![purple_file(*r)]) + entries_utils(
                                        entries,
                                        i as int + 1,
                                    ) =~= cur_utils + (seq![purple_file(*r)] + entries_utils(
                                        entries,
                                        i as int + 1,
                                    )));
                                }
                            }
                        },
                        None => {},
                    }
                },
                RecordUnion::RecordElementArray(arr) => {
                    proof {
                        assert(entries[i as int].1.record == RecordUnion::RecordElementArray(
                            *arr,
                        ));
                        assert(entry_wf(entries[i as int]));
                        assert(elements_wf(*arr));
                        assert(forall|j: int| 0 <= j < arr@.len() ==> (#[trigger] arr@[j]).wf());
                    }
                    let m: usize = arr.len();
                    let mut j: usize = 0;
                    while j < m
                        invariant
                            j <= m,
                            m == arr@.len(),
                            forall|k: int| 0 <= k < m ==> (#[trigger] arr@[k]).wf(),
                            wads0 + entries_wads(entries, 0) == files_view(self.files.wad_list@)
                                + elems_wads(arr@, j as int) + entries_wads(entries, i as int + 1),
                            utils0 + entries_utils(entries, 0) == files_view(
                                self.files.util_list@,
                            ) + elems_utils(arr@, j as int) + entries_utils(
                                entries,
                                i as int + 1,
                            ),
                            self.list_file_url == old(self).list_file_url,
                            self.url_prefix == old(self).url_prefix,
                            self.revision == old(self).revision,
                            self.max_concurrent_downloads == old(self).max_concurrent_downloads,
                        decreases m - j,
                    {
                        let ghost w0 = files_view(self.files.wad_list@);
                        let ghost u0 = files_view(self.files.util_list@);
                        proof {
                            reveal_strlit(".wad");
                            assert(".wad"@ =~= wad_suffix());
                            assert(arr@[j as int].wf());
                        }
                        match &arr[j].src_file_name {
                            Some(name) => {
                                let filename: String = match &name.value {
                                    Some(v) => v.clone(),
                                    None => {
                                        proof {
                                            assert(false);
                                        }
                                        String::new()
                                    },
                                };
                                let el: &RecordElement = &arr[j];
                                let file = File {
                                    filename,
                                    size: Self::crc_value(&el.size),
                                    header_size: Self::crc_value(&el.header_size),
                                    compressed_header_size: Self::crc_value(
                                        &el.compressed_header_size,
                                    ),
                                    crc: Self::crc_value(&el.crc),
                                    header_crc: Self::crc_value(&el.header_crc),
                                };
                                proof {
                                    assert(file_view(file) == element_file(arr@[j as int]));
                                }
                                if crate::strutil::ends_with(file.filename.as_str(), ".wad") {
                                    self.files.wad_list.push(file);
                                    proof {
                                        assert(files_view(self.files.wad_list@) =~= w0 + seq![
                                            element_file(arr@[j as int]),
                                        ]);
                                        assert((w0 + seq![element_file(arr@[j as int])])
                                            + elems_wads(arr@, j as int + 1) =~= w0 + (seq![
                                            element_file(arr@[j as int]),
                                        ] + elems_wads(arr@, j as int + 1)));
                                    }
                                } else {
                                    self.files.util_list.push(file);
                                    proof {
                                        assert(files_view(self.files.util_list@) =~= u0 + seq![
                                            element_file(arr@[j as int]),
                                        ]);
                                        assert((u0 + seq![element_file(arr@[j as int])])
                                            + elems_utils(arr@, j as int + 1) =~= u0 + (seq![
                                            element_file(arr@[j as int]),
                                        ] + elems_utils(arr@, j as int + 1)));
                                    }
                                }
                            },
                            None => {},
                        }
                        j = j + 1;
                    }
                    proof {
                        assert(elems_wads(arr@, m as int) =~= Seq::<FileV>::empty());
                        assert(elems_utils(arr@, m as int) =~= Seq::<FileV>::empty());
                        assert(files_view(self.files.wad_list@) + Seq::<FileV>::empty()
                            + entries_wads(entries, i as int + 1) =~= files_view(
                            self.files.wad_list@,
                        ) + entries_wads(entries, i as int + 1));
                        assert(files_view(self.files.util_list@) + Seq::<FileV>::empty()
                            + entries_utils(entries, i as int + 1) =~= files_view(
                            self.files.util_list@,
                        ) + entries_utils(entries, i as int + 1));
                    }
                },
            }
            i = i + 1;
        }
        proof {
            assert(entries_wads(entries, n as int) =~= Seq::<FileV>::empty());
            assert(entries_utils(entries, n as int) =~= Seq::<FileV>::empty());
            assert(files_view(self.files.wad_list@) + Seq::<FileV>::empty() =~= files_view(
                self.files.wad_list@,
            ));
            assert(files_view(self.files.util_list@) + Seq::<FileV>::empty() =~= files_view(
                self.files.util_list@,
            ));
        }
    }

    /// The planned transfers for the wad list: each from
    /// `<url_prefix>/<filename>` to `<save_path>/wads/<basename>`.
    pub fn fetch_wads_jobs(&self, save_path: &str) -> (r: Vec<DownloadJob>)
        ensures
            r@.len() == self.files.wad_list@.len(),
            forall|i: int|
                0 <= i < r@.len() ==> (#[trigger] r@[i]).url@ == path_join_spec(
                    self.url_prefix@,
                    self.files.wad_list@[i].filename@,
                ) && r@[i].dest_path@ == path_join_spec(
                    path_join_spec(save_path@, "wads"@),
                    basename_spec(self.files.wad_list@[i].filename@),
                ),
    {
        Self::download_jobs_under(&self.files.wad_list, &self.url_prefix, save_path, "wads")
    }

    /// The planned transfers for the utility list: each from
    /// `<url_prefix>/<filename>` to `<save_path>/utils/<basename>`.
    pub fn fetch_utils_jobs(&self, save_path: &str) -> (r: Vec<DownloadJob>)
        ensures
            r@.len() == self.files.util_list@.len(),
            forall|i: int|
                0 <= i < r@.len() ==> (#[trigger] r@[i]).url@ == path_join_spec(
                    self.url_prefix@,
                    self.files.util_list@[i].filename@,
                ) && r@[i].dest_path@ == path_join_spec(
                    path_join_spec(save_path@, "utils"@),
                    basename_spec(self.files.util_list@[i].filename@),
                ),
    {
        Self::download_jobs_under(&self.files.util_list, &self.url_prefix, save_path, "utils")
    }

    fn download_jobs_under(files: &Vec<File>, url_prefix: &str, save_path: &str, kind: &str) -> (r:
        Vec<DownloadJob>)
        ensures
            r@.len() == files@.len(),
            forall|i: int|
                0 <= i < r@.len() ==> (#[trigger] r@[i]).url@ == path_join_spec(
                    url_prefix@,
                    files@[i].filename@,
                ) && r@[i].dest_path@ == path_join_spec(
                    path_join_spec(save_path@, kind@),
                    basename_spec(files@[i].filename@),
                ),
    {
        let base: String = path_join(save_path, kind);
        let mut r: Vec<DownloadJob> = Vec::new();
        let mut i: usize = 0;
        while i < files.len()
            invariant
                i <= files@.len(),
                r@.len() == i,
                base@ == path_join_spec(save_path@, kind@),
                forall|k: int|
                    0 <= k < i ==> (#[trigger] r@[k]).url@ == path_join_spec(
                        url_prefix@,
                        files@[k].filename@,
                    ) && r@[k].dest_path@ == path_join_spec(
                        base@,
                        basename_spec(files@[k].filename@),
                    ),
            decreases files@.len() - i,
        {
            let file_name: String = basename(files[i].filename.as_str());
            let job = DownloadJob {
                url: path_join(url_prefix, files[i].filename.as_str()),
                dest_path: path_join(base.as_str(), file_name.as_str()),
            };
            r.push(job);
            i = i + 1;
        }
        r
    }

    fn crc_value(c: &Option<Crc>) -> (r: i64)
        requires
            c is Some,
        ensures
            r == c.unwrap().value,
    {
        match c {
            Some(v) => v.value,
            None => 0,
        }
    }
}

} // verus!
