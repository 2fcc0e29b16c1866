use vstd::prelude::*;
use crate::path::{normalized_path, path_is_safe, sanitized_path};

verus! {

/// A compression method tag, by the ZIP method code.
#[derive(Clone, Copy, Debug, PartialEq, Eq, Structural)]
pub enum Method {
    Stored,
    Deflated,
    Deflate64,
    Bzip2,
    Lzma,
    Zstd,
    Xz,
    Aes,
    /// A RAR compression level, from 1 (fastest) to 5 (best).
    Rar(u8),
    Unsupported(u16),
}

impl Method {
    pub open spec fn spec_from_code(code: u16) -> Method {
        if code == 0 { Method::Stored }
        else if code == 8 { Method::Deflated }
        else if code == 9 { Method::Deflate64 }
        else if code == 12 { Method::Bzip2 }
        else if code == 14 { Method::Lzma }
        else if code == 93 { Method::Zstd }
        else if code == 95 { Method::Xz }
        else if code == 99 { Method::Aes }
        else { Method::Unsupported(code) }
    }

    /// The method that a ZIP method code stands for.
    pub fn from_code(code: u16) -> (m: Method)
        ensures
            m == Self::spec_from_code(code),
    {
        if code == 0 { Method::Stored }
        else if code == 8 { Method::Deflated }
        else if code == 9 { Method::Deflate64 }
        else if code == 12 { Method::Bzip2 }
        else if code == 14 { Method::Lzma }
        else if code == 93 { Method::Zstd }
        else if code == 95 { Method::Xz }
        else if code == 99 { Method::Aes }
        else { Method::Unsupported(code) }
    }
}

impl Method {
    pub open spec fn spec_from_rar_code(code: u32) -> Method {
        if code == 0x30 {
            Method::Stored
        } else if 0x31 <= code <= 0x35 {
            Method::Rar((code - 0x30) as u8)
        } else {
            Method::Unsupported(if code <= 0xffff { code as u16 } else { 0xffff })
        }
    }

    /// The method that a RAR header's method code stands for: 0x30 stores,
    /// 0x31 to 0x35 compress at levels 1 to 5.
    pub fn from_rar_code(code: u32) -> (m: Method)
        ensures
            m == Self::spec_from_rar_code(code),
    {
        if code == 0x30 {
            Method::Stored
        } else if 0x31 <= code && code <= 0x35 {
            Method::Rar((code - 0x30) as u8)
        } else {
            Method::Unsupported(if code <= 0xffff { code as u16 } else { 0xffff })
        }
    }
}

/// A calendar date and time of day, as an archive stores it.
#[derive(Clone, Copy, Debug, PartialEq, Eq, Structural)]
pub struct Timestamp {
    pub year: u16,
    pub month: u8,
    pub day: u8,
    pub hour: u8,
    pub minute: u8,
    pub second: u8,
}

impl Timestamp {
    /// The timestamp that an MS-DOS packed date and time denotes: the date in
    /// the high half (years since 1980, month, day), the time in the low half
    /// (hour, minute, seconds halved).
    pub open spec fn spec_from_dos(d: u32) -> Timestamp {
        Timestamp {
            year: (1980 + d / 0x0200_0000) as u16,
            month: ((d / 0x0020_0000) % 16) as u8,
            day: ((d / 0x0001_0000) % 32) as u8,
            hour: ((d / 0x0800) % 32) as u8,
            minute: ((d / 0x20) % 64) as u8,
            second: ((d % 32) * 2) as u8,
        }
    }

    /// Decodes an MS-DOS packed date and time.
    pub fn from_dos(d: u32) -> (t: Timestamp)
        ensures
            t == Self::spec_from_dos(d),
    {
        Timestamp {
            year: (1980 + d / 0x0200_0000) as u16,
            month: ((d / 0x0020_0000) % 16) as u8,
            day: ((d / 0x0001_0000) % 32) as u8,
            hour: ((d / 0x0800) % 32) as u8,
            minute: ((d / 0x20) % 64) as u8,
            second: ((d % 32) * 2) as u8,
        }
    }
}

/// One member as the container's index yields it, before sanitization.
pub struct EntryRecord {
    pub name: String,
    pub is_directory: bool,
    pub compressed_size: Option<u64>,
    pub uncompressed_size: u64,
    pub method: Method,
    pub crc32: Option<u32>,
    pub last_modified: Option<Timestamp>,
    pub comment: String,
    pub encrypted: bool,
}

/// One listed member of an archive.
pub struct EntryReport {
    pub path: String,
    pub is_directory: bool,
    pub compressed_size: Option<u64>,
    pub uncompressed_size: u64,
    pub compression_method: Method,
    pub crc32: Option<u32>,
    pub last_modified: Option<Timestamp>,
    pub comment: Option<String>,
    pub encrypted: bool,
}

pub ghost struct EntryView {
    pub name: Seq<char>,
    pub is_directory: bool,
    pub compressed_size: Option<u64>,
    pub uncompressed_size: u64,
    pub method: Method,
    pub crc32: Option<u32>,
    pub last_modified: Option<Timestamp>,
    pub comment: Seq<char>,
    pub encrypted: bool,
}

pub ghost struct ReportView {
    pub path: Seq<char>,
    pub is_directory: bool,
    pub compressed_size: Option<u64>,
    pub uncompressed_size: u64,
    pub compression_method: Method,
    pub crc32: Option<u32>,
    pub last_modified: Option<Timestamp>,
    pub comment: Option<Seq<char>>,
    pub encrypted: bool,
}

impl View for EntryRecord {
    type V = EntryView;

    open spec fn view(&self) -> EntryView {
        EntryView {
            name: self.name@,
            is_directory: self.is_directory,
            compressed_size: self.compressed_size,
            uncompressed_size: self.uncompressed_size,
            method: self.method,
            crc32: self.crc32,
            last_modified: self.last_modified,
            comment: self.comment@,
            encrypted: self.encrypted,
        }
    }
}

impl View for EntryReport {
    type V = ReportView;

    open spec fn view(&self) -> ReportView {
        ReportView {
            path: self.path@,
            is_directory: self.is_directory,
            compressed_size: self.compressed_size,
            uncompressed_size: self.uncompressed_size,
            compression_method: self.compression_method,
            crc32: self.crc32,
            last_modified: self.last_modified,
            comment: match self.comment {
                Some(c) => Some(c@),
                None => None,
            },
            encrypted: self.encrypted,
        }
    }
}

/// The report of a record whose name is safe: the path is the normalized
/// name, and an empty comment is no comment.
pub open spec fn report_of(e: EntryView) -> ReportView {
    ReportView {
        path: match normalized_path(e.name) {
            Some(p) => p,
            None => e.name,
        },
        is_directory: e.is_directory,
        compressed_size: e.compressed_size,
        uncompressed_size: e.uncompressed_size,
        compression_method: e.method,
        crc32: e.crc32,
        last_modified: e.last_modified,
        comment: if e.comment.len() == 0 { None } else { Some(e.comment) },
        encrypted: e.encrypted,
    }
}

/// What a walk over the container's index yields for each member: the record,
/// or the message of the error that kept it from being read.
pub type Walked = Seq<Result<EntryRecord, String>>;

/// The records that are listed: readable, with a safe name, in index order.
pub open spec fn listed(rs: Walked) -> Seq<EntryView>
    decreases rs.len(),
{
    if rs.len() == 0 {
        Seq::empty()
    } else {
        let p = listed(rs.drop_last());
        match rs.last() {
            Ok(e) => if path_is_safe(e.name@) { p.push(e@) } else { p },
            Err(_) => p,
        }
    }
}

/// The names of readable records that would escape the archive root.
pub open spec fn suspicious(rs: Walked) -> Seq<Seq<char>>
    decreases rs.len(),
{
    if rs.len() == 0 {
        Seq::empty()
    } else {
        let p = suspicious(rs.drop_last());
        match rs.last() {
            Ok(e) => if path_is_safe(e.name@) { p } else { p.push(e.name@) },
            Err(_) => p,
        }
    }
}

/// The messages of the members that could not be read.
pub open spec fn failures(rs: Walked) -> Seq<Seq<char>>
    decreases rs.len(),
{
    if rs.len() == 0 {
        Seq::empty()
    } else {
        let p = failures(rs.drop_last());
        match rs.last() {
            Ok(_) => p,
            Err(m) => p.push(m@),
        }
    }
}

/// The methods of the readable records, each once, in order of first appearance.
pub open spec fn methods_seen(rs: Walked) -> Seq<Method>
    decreases rs.len(),
{
    if rs.len() == 0 {
        Seq::empty()
    } else {
        let p = methods_seen(rs.drop_last());
        match rs.last() {
            Ok(e) => if p.contains(e.method) { p } else { p.push(e.method) },
            Err(_) => p,
        }
    }
}

/// Sum of the known compressed sizes of all readable records, listed or not.
pub open spec fn total_compressed(rs: Walked) -> nat
    decreases rs.len(),
{
    if rs.len() == 0 {
        0
    } else {
        total_compressed(rs.drop_last()) + match rs.last() {
            Ok(e) => match e.compressed_size {
                Some(c) => c as nat,
                None => 0,
            },
            Err(_) => 0,
        }
    }
}

/// Sum of the uncompressed sizes of all readable records, listed or not.
pub open spec fn total_uncompressed(rs: Walked) -> nat
    decreases rs.len(),
{
    if rs.len() == 0 {
        0
    } else {
        total_uncompressed(rs.drop_last()) + match rs.last() {
            Ok(e) => e.uncompressed_size as nat,
            Err(_) => 0,
        }
    }
}

/// Summary of one archive.
pub struct ArchiveSummary {
    pub entries: Vec<EntryReport>,
    pub archive_comment: Option<String>,
    pub compression_methods_used: Vec<Method>,
    pub total_compressed_size: u128,
    pub total_uncompressed_size: u128,
    pub is_multi_volume: bool,
    pub recoverable_error: Option<String>,
    pub suspicious_paths: Vec<String>,
    pub unreadable: Vec<String>,
}

/// The parts of a summary that a walk over `rs` determines.
pub open spec fn walk_result(rs: Walked, s: ArchiveSummary) -> bool {
    &&& s.entries@.len() == listed(rs).len()
    &&& forall|i: int| 0 <= i < s.entries@.len() ==> #[trigger] s.entries@[i]@ == report_of(listed(rs)[i])
    &&& s.compression_methods_used@ == methods_seen(rs)
    &&& s.total_compressed_size == total_compressed(rs)
    &&& s.total_uncompressed_size == total_uncompressed(rs)
    &&& s.suspicious_paths@.len() == suspicious(rs).len()
    &&& forall|i: int| 0 <= i < s.suspicious_paths@.len() ==> #[trigger] s.suspicious_paths@[i]@ == suspicious(rs)[i]
    &&& s.unreadable@.len() == failures(rs).len()
    &&& forall|i: int| 0 <= i < s.unreadable@.len() ==> #[trigger] s.unreadable@[i]@ == failures(rs)[i]
}

fn contains_method(v: &Vec<Method>, m: Method) -> (r: bool)
    ensures
        r == v@.contains(m),
{
    let mut i: usize = 0;
    while i < v.len()
        invariant
            i <= v@.len(),
            forall|j: int| 0 <= j < i ==> v@[j] != m,
        decreases v@.len() - i,
    {
        if v[i] == m {
            return true;
        }
        i = i + 1;
    }
    false
}

fn report_from(e: &EntryRecord, path: String) -> (r: EntryReport)
    requires
        normalized_path(e.name@) == Some(path@),
    ensures
        r@ == report_of(e@),
{
    let comment = if e.comment.as_str().unicode_len() == 0 {
        None
    } else {
        Some(e.comment.clone())
    };
    EntryReport {
        path,
        is_directory: e.is_directory,
        compressed_size: e.compressed_size,
        uncompressed_size: e.uncompressed_size,
        compression_method: e.method,
        crc32: e.crc32,
        last_modified: e.last_modified,
        comment,
        encrypted: e.encrypted,
    }
}

proof fn lemma_totals_bounded(rs: Walked)
    ensures
        total_compressed(rs) <= rs.len() * 0xffff_ffff_ffff_ffff,
        total_uncompressed(rs) <= rs.len() * 0xffff_ffff_ffff_ffff,
    decreases rs.len(),
{
    if rs.len() > 0 {
        lemma_totals_bounded(rs.drop_last());
        assert((rs.len() - 1) * 0xffff_ffff_ffff_ffff + 0xffff_ffff_ffff_ffff == rs.len() * 0xffff_ffff_ffff_ffff)
            by (nonlinear_arith);
    }
}

/// Walks the records in index order: lists the readable ones with a safe name,
/// flags the others, and gathers methods and totals over every readable record.
pub fn walk(records: &Vec<Result<EntryRecord, String>>) -> (s: ArchiveSummary)
    ensures
        walk_result(records@, s),
        s.archive_comment.is_none(),
        !s.is_multi_volume,
        s.recoverable_error.is_none(),
{
    let mut s = ArchiveSummary {
        entries: Vec::new(),
        archive_comment: None,
        compression_methods_used: Vec::new(),
        total_compressed_size: 0,
        total_uncompressed_size: 0,
        is_multi_volume: false,
        recoverable_error: None,
        suspicious_paths: Vec::new(),
        unreadable: Vec::new(),
    };
    let n = records.len();
    let mut i: usize = 0;
    proof {
        assert(records@.subrange(0, 0) =~= Seq::<Result<EntryRecord, String>>::empty());
    }
    while i < n
        invariant
            n == records@.len(),
            i <= n,
            walk_result(records@.subrange(0, i as int), s),
            s.archive_comment.is_none(),
            !s.is_multi_volume,
            s.recoverable_error.is_none(),
        decreases n - i,
    {
        let ghost pre = records@.subrange(0, i as int);
        let ghost cur = records@.subrange(0, i + 1);
        proof {
            assert(cur.drop_last() =~= pre);
            assert(cur.last() == records@[i as int]);
            lemma_totals_bounded(pre);
            assert(i * 0xffff_ffff_ffff_ffffu128 + 0xffff_ffff_ffff_ffffu128 <= 0xffff_ffff_ffff_ffff_ffff_ffff_ffff_ffffu128)
                by (nonlinear_arith)
                requires i < 0xffff_ffff_ffff_ffffu128;
        }
        match &records[i] {
            Ok(e) => {
                if !contains_method(&s.compression_methods_used, e.method) {
                    s.compression_methods_used.push(e.method);
                }
                if let Some(c) = e.compressed_size {
                    s.total_compressed_size = s.total_compressed_size + c as u128;
                }
                s.total_uncompressed_size = s.total_uncompressed_size + e.uncompressed_size as u128;
                match sanitized_path(e.name.as_str()) {
                    Some(path) => {
                        let r = report_from(e, path);
                        s.entries.push(r);
                    },
                    None => {
                        s.suspicious_paths.push(e.name.clone());
                    },
                }
            },
            Err(m) => {
                s.unreadable.push(m.clone());
            },
        }
        i = i + 1;
        proof {
            assert(walk_result(cur, s));
        }
    }
    proof {
        assert(records@.subrange(0, n as int) =~= records@);
    }
    s
}

/// Summary of a ZIP archive from its comment and its walked central directory.
pub fn summarize_zip(comment: String, records: &Vec<Result<EntryRecord, String>>) -> (s: ArchiveSummary)
    ensures
        walk_result(records@, s),
        s.archive_comment.is_none() <==> comment@.len() == 0,
        s.archive_comment matches Some(c) ==> c@ == comment@,
        !s.is_multi_volume,
        s.recoverable_error.is_none(),
{
    let mut s = walk(records);
    if comment.as_str().unicode_len() > 0 {
        s.archive_comment = Some(comment);
    }
    s
}

/// What a RAR archive's comment is reported as: its presence alone.
pub open spec fn rar_comment_note() -> Seq<char> {
    "currently not supported"@
}

/// Summary of a RAR archive. A multi-volume archive lists nothing; otherwise
/// the walked headers are summarized as for ZIP. A warning from opening a
/// damaged but listable archive is kept.
pub fn summarize_rar(
    has_comment: bool,
    multi_volume: bool,
    open_warning: Option<String>,
    records: &Vec<Result<EntryRecord, String>>,
) -> (s: ArchiveSummary)
    ensures
        s.is_multi_volume == multi_volume,
        multi_volume ==> walk_result(Seq::empty(), s),
        !multi_volume ==> walk_result(records@, s),
        s.archive_comment.is_some() == has_comment,
        s.archive_comment matches Some(c) ==> c@ == rar_comment_note(),
        s.recoverable_error.is_some() == open_warning.is_some(),
        s.recoverable_error matches Some(w) ==> open_warning matches Some(o) && w@ == o@,
{
    let mut s = if multi_volume {
        let none: Vec<Result<EntryRecord, String>> = Vec::new();
        proof {
            assert(none@ =~= Seq::<Result<EntryRecord, String>>::empty());
        }
        walk(&none)
    } else {
        walk(records)
    };
    s.is_multi_volume = multi_volume;
    if has_comment {
        proof { reveal_strlit("currently not supported"); }
        s.archive_comment = Some(String::from_str("currently not supported"));
    }
    s.recoverable_error = open_warning;
    s
}

/// Sum of the uncompressed sizes of listed entries.
pub open spec fn reported_uncompressed(es: Seq<EntryReport>) -> nat
    decreases es.len(),
{
    if es.len() == 0 {
        0
    } else {
        reported_uncompressed(es.drop_last()) + es.last().uncompressed_size as nat
    }
}

/// Every member was read and has a safe name.
pub open spec fn well_formed(rs: Walked) -> bool {
    forall|i: int| 0 <= i < rs.len() ==> (#[trigger] rs[i] matches Ok(e) && path_is_safe(e.name@))
}

proof fn lemma_listed_of_well_formed(rs: Walked)
    requires
        well_formed(rs),
    ensures
        listed(rs).len() == rs.len(),
        forall|i: int| 0 <= i < rs.len() ==> (#[trigger] rs[i] matches Ok(e) && listed(rs)[i] == e@),
    decreases rs.len(),
{
    if rs.len() > 0 {
        let p = rs.drop_last();
        assert forall|i: int| 0 <= i < p.len() implies (#[trigger] p[i] matches Ok(e) && path_is_safe(e.name@)) by {
            assert(p[i] == rs[i]);
        }
        lemma_listed_of_well_formed(p);
        assert(rs[rs.len() - 1] matches Ok(e) && path_is_safe(e.name@));
        assert forall|i: int| 0 <= i < rs.len() implies (#[trigger] rs[i] matches Ok(e) && listed(rs)[i] == e@) by {
            if i < rs.len() - 1 {
                assert(p[i] == rs[i]);
            }
        }
    }
}

proof fn lemma_reported_sum(es: Seq<EntryReport>, rs: Walked)
    requires
        well_formed(rs),
        es.len() == rs.len(),
        forall|i: int| 0 <= i < es.len() ==> (#[trigger] rs[i] matches Ok(e) && es[i].uncompressed_size == e.uncompressed_size),
    ensures
        reported_uncompressed(es) == total_uncompressed(rs),
    decreases rs.len(),
{
    if rs.len() > 0 {
        let p = rs.drop_last();
        let q = es.drop_last();
        assert forall|i: int| 0 <= i < p.len() implies (#[trigger] p[i] matches Ok(e) && path_is_safe(e.name@)) by {
            assert(p[i] == rs[i]);
        }
        assert forall|i: int| 0 <= i < q.len() implies (#[trigger] p[i] matches Ok(e) && q[i].uncompressed_size == e.uncompressed_size) by {
            assert(p[i] == rs[i]);
            assert(q[i] == es[i]);
        }
        lemma_reported_sum(q, p);
        assert(rs[rs.len() - 1] matches Ok(e) && es[es.len() - 1].uncompressed_size == e.uncompressed_size);
    }
}

proof fn lemma_listed_safe(rs: Walked)
    ensures
        forall|i: int| 0 <= i < listed(rs).len() ==> path_is_safe(#[trigger] listed(rs)[i].name),
    decreases rs.len(),
{
    if rs.len() > 0 {
        lemma_listed_safe(rs.drop_last());
    }
}

proof fn lemma_unsafe_flagged(rs: Walked, k: int)
    requires
        0 <= k < rs.len(),
        rs[k] matches Ok(e) && !path_is_safe(e.name@),
    ensures
        rs[k] matches Ok(e) && suspicious(rs).contains(e.name@),
    decreases rs.len(),
{
    let p = rs.drop_last();
    if k < rs.len() - 1 {
        assert(p[k] == rs[k]);
        lemma_unsafe_flagged(p, k);
        let e = rs[k]->Ok_0;
        let j = choose|j: int| 0 <= j < suspicious(p).len() && suspicious(p)[j] == e.name@;
        assert(suspicious(rs)[j] == e.name@);
    } else {
        let e = rs[k]->Ok_0;
        assert(suspicious(rs) == suspicious(p).push(e.name@));
        assert(suspicious(rs)[suspicious(p).len() as int] == e.name@);
    }
}

/// Every listed path is the normalized name of a member that stays inside the
/// archive root, and every readable member whose name would escape it is
/// flagged as suspicious instead.
pub proof fn lemma_unsafe_paths_not_listed(rs: Walked, s: ArchiveSummary)
    requires
        walk_result(rs, s),
    ensures
        forall|i: int| 0 <= i < s.entries@.len() ==> path_is_safe(listed(rs)[i].name)
            && normalized_path(listed(rs)[i].name) == Some(#[trigger] s.entries@[i]@.path),
        forall|k: int| 0 <= k < rs.len() && (#[trigger] rs[k] matches Ok(e) && !path_is_safe(e.name@))
            ==> (rs[k] matches Ok(e) && exists|j: int| 0 <= j < s.suspicious_paths@.len()
                && #[trigger] s.suspicious_paths@[j]@ == e.name@),
{
    lemma_listed_safe(rs);
    assert forall|i: int| 0 <= i < s.entries@.len() implies path_is_safe(listed(rs)[i].name)
        && normalized_path(listed(rs)[i].name) == Some(#[trigger] s.entries@[i]@.path) by {
        assert(s.entries@[i]@ == report_of(listed(rs)[i]));
    }
    assert forall|k: int| 0 <= k < rs.len() && (#[trigger] rs[k] matches Ok(e) && !path_is_safe(e.name@))
        implies (rs[k] matches Ok(e) && exists|j: int| 0 <= j < s.suspicious_paths@.len()
            && #[trigger] s.suspicious_paths@[j]@ == e.name@) by {
        lemma_unsafe_flagged(rs, k);
        let e = rs[k]->Ok_0;
        let j = choose|j: int| 0 <= j < suspicious(rs).len() && suspicious(rs)[j] == e.name@;
        assert(s.suspicious_paths@[j]@ == e.name@);
    }
}

/// For an archive whose every member was read and has a safe name, the
/// uncompressed sizes of the listed entries add up to the summary's total.
pub proof fn lemma_listed_sizes_add_up(rs: Walked, s: ArchiveSummary)
    requires
        walk_result(rs, s),
        well_formed(rs),
    ensures
        reported_uncompressed(s.entries@) == s.total_uncompressed_size,
{
    lemma_listed_of_well_formed(rs);
    assert forall|i: int| 0 <= i < s.entries@.len() implies (#[trigger] rs[i] matches Ok(e)
        && s.entries@[i].uncompressed_size == e.uncompressed_size) by {
        assert(s.entries@[i]@ == report_of(listed(rs)[i]));
    }
    lemma_reported_sum(s.entries@, rs);
}

/// The methods used are distinct, and are exactly the methods of the records
/// that were read.
pub proof fn lemma_methods_seen(rs: Walked)
    ensures
        methods_seen(rs).no_duplicates(),
        forall|m: Method| methods_seen(rs).contains(m) <==>
            exists|i: int| 0 <= i < rs.len() && (#[trigger] rs[i] matches Ok(e) && e.method == m),
    decreases rs.len(),
{
    if rs.len() > 0 {
        let p = rs.drop_last();
        lemma_methods_seen(p);
        assert forall|m: Method| methods_seen(rs).contains(m) <==>
            exists|i: int| 0 <= i < rs.len() && (#[trigger] rs[i] matches Ok(e) && e.method == m) by {
            if methods_seen(rs).contains(m) {
                if methods_seen(p).contains(m) {
                    let i = choose|i: int| 0 <= i < p.len() && (#[trigger] p[i] matches Ok(e) && e.method == m);
                    assert(rs[i] == p[i]);
                } else {
                    assert(rs[rs.len() - 1] matches Ok(e) && e.method == m);
                }
            }
            if exists|i: int| 0 <= i < rs.len() && (#[trigger] rs[i] matches Ok(e) && e.method == m) {
                let i = choose|i: int| 0 <= i < rs.len() && (#[trigger] rs[i] matches Ok(e) && e.method == m);
                if i < rs.len() - 1 {
                    assert(p[i] == rs[i]);
                    assert(methods_seen(p).contains(m));
                } else {
                    if !methods_seen(p).contains(m) {
                        assert(methods_seen(rs) == methods_seen(p).push(m));
                        assert(methods_seen(rs)[methods_seen(p).len() as int] == m);
                    }
                }
                let q = methods_seen(p);
                if q.contains(m) {
                    let k = choose|k: int| 0 <= k < q.len() && q[k] == m;
                    assert(methods_seen(rs)[k] == m);
                }
            }
        }
    }
}

/// A stored member followed by a deflated one gives the methods in that order.
pub proof fn lemma_stored_then_deflated(rs: Walked)
    requires
        rs.len() == 2,
        rs[0] matches Ok(e) && e.method == Method::Stored,
        rs[1] matches Ok(e) && e.method == Method::Deflated,
    ensures
        methods_seen(rs) == seq![Method::Stored, Method::Deflated],
{
    let p = rs.drop_last();
    assert(p.drop_last() =~= Seq::<Result<EntryRecord, String>>::empty());
    assert(p.last() == rs[0]);
    assert(methods_seen(p.drop_last()) =~= Seq::<Method>::empty());
    assert(!Seq::<Method>::empty().contains(Method::Stored));
    assert(methods_seen(p) =~= seq![Method::Stored]);
    assert(!methods_seen(p).contains(Method::Deflated)) by {
        assert(methods_seen(p)[0] != Method::Deflated);
    }
    assert(methods_seen(rs) =~= seq![Method::Stored, Method::Deflated]);
}

/// Two walks that read the same records, whatever their error messages.
pub open spec fn same_reads(r1: Walked, r2: Walked) -> bool {
    &&& r1.len() == r2.len()
    &&& forall|i: int| 0 <= i < r1.len() ==> (#[trigger] r1[i] is Ok <==> r2[i] is Ok)
    &&& forall|i: int| 0 <= i < r1.len() ==> (#[trigger] r1[i] matches Ok(e1)
        ==> r2[i] matches Ok(e2) && e1@ == e2@)
}

/// Walks that read the same records list the same entries, with the same
/// methods and totals.
pub proof fn lemma_same_reads_same_walk(r1: Walked, r2: Walked)
    requires
        same_reads(r1, r2),
    ensures
        listed(r1) == listed(r2),
        methods_seen(r1) == methods_seen(r2),
        total_compressed(r1) == total_compressed(r2),
        total_uncompressed(r1) == total_uncompressed(r2),
    decreases r1.len(),
{
    if r1.len() > 0 {
        let p1 = r1.drop_last();
        let p2 = r2.drop_last();
        assert forall|i: int| 0 <= i < p1.len() implies (#[trigger] p1[i] is Ok <==> p2[i] is Ok) by {
            assert(p1[i] == r1[i] && p2[i] == r2[i]);
        }
        assert forall|i: int| 0 <= i < p1.len() implies (#[trigger] p1[i] matches Ok(e1)
            ==> p2[i] matches Ok(e2) && e1@ == e2@) by {
            assert(p1[i] == r1[i] && p2[i] == r2[i]);
        }
        lemma_same_reads_same_walk(p1, p2);
        let k = r1.len() - 1;
        assert(r1[k] is Ok <==> r2[k] is Ok);
        if r1[k] is Ok {
            assert(r1[k] matches Ok(e1) ==> r2[k] matches Ok(e2) && e1@ == e2@);
        }
    }
}

/// Walking the same records twice gives the same entry reports.
pub proof fn lemma_walk_deterministic(rs: Walked, s1: ArchiveSummary, s2: ArchiveSummary)
    requires
        walk_result(rs, s1),
        walk_result(rs, s2),
    ensures
        s1.entries@.len() == s2.entries@.len(),
        forall|i: int| 0 <= i < s1.entries@.len() ==> #[trigger] s1.entries@[i]@ == s2.entries@[i]@,
        s1.compression_methods_used@ == s2.compression_methods_used@,
        s1.total_compressed_size == s2.total_compressed_size,
        s1.total_uncompressed_size == s2.total_uncompressed_size,
{
}

} // verus!
