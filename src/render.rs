use vstd::prelude::*;
use crate::archive::{ArchiveSummary, EntryReport, Method, ReportView, Timestamp};
use crate::catalog::{name_for, Catalog};
use crate::dispatch::{extension_of, extension_text};
use crate::decimal::{decimal, decimal_padded, dec, dec_padded};
use crate::units::{format_ratio, format_size, percent_text, ratio_hundredths, size_text};

verus! {

/// The name of a compression method as it is shown.
pub open spec fn method_text(m: Method) -> Seq<char> {
    match m {
        Method::Stored => "Stored"@,
        Method::Deflated => "Deflated"@,
        Method::Deflate64 => "Deflate64"@,
        Method::Bzip2 => "Bzip2"@,
        Method::Lzma => "Lzma"@,
        Method::Zstd => "Zstd"@,
        Method::Xz => "Xz"@,
        Method::Aes => "Aes"@,
        Method::Rar(l) => "Rar("@ + dec(l as nat) + ")"@,
        Method::Unsupported(c) => "Unsupported("@ + dec(c as nat) + ")"@,
    }
}

/// Renders the name of a compression method.
pub fn method_name(m: Method) -> (r: String)
    ensures
        r@ == method_text(m),
{
    match m {
        Method::Stored => { proof { reveal_strlit("Stored"); } String::from_str("Stored") },
        Method::Deflated => { proof { reveal_strlit("Deflated"); } String::from_str("Deflated") },
        Method::Deflate64 => { proof { reveal_strlit("Deflate64"); } String::from_str("Deflate64") },
        Method::Bzip2 => { proof { reveal_strlit("Bzip2"); } String::from_str("Bzip2") },
        Method::Lzma => { proof { reveal_strlit("Lzma"); } String::from_str("Lzma") },
        Method::Zstd => { proof { reveal_strlit("Zstd"); } String::from_str("Zstd") },
        Method::Xz => { proof { reveal_strlit("Xz"); } String::from_str("Xz") },
        Method::Aes => { proof { reveal_strlit("Aes"); } String::from_str("Aes") },
        Method::Rar(l) => {
            let mut r = String::from_str("Rar(");
            let d = decimal(l as u128);
            r.append(d.as_str());
            r.append(")");
            r
        },
        Method::Unsupported(c) => {
            let mut r = String::from_str("Unsupported(");
            let d = decimal(c as u128);
            r.append(d.as_str());
            r.append(")");
            r
        },
    }
}

/// What stands in place of a value that is not known.
pub open spec fn unavailable() -> Seq<char> {
    "unavailable"@
}

/// A timestamp as `YYYY-MM-DD hh:mm:ss`, or "unavailable" when there is none.
pub open spec fn timestamp_text(t: Option<Timestamp>) -> Seq<char> {
    match t {
        Some(t) => dec_padded(t.year as nat, 4) + "-"@ + dec_padded(t.month as nat, 2) + "-"@
            + dec_padded(t.day as nat, 2) + " "@ + dec_padded(t.hour as nat, 2) + ":"@
            + dec_padded(t.minute as nat, 2) + ":"@ + dec_padded(t.second as nat, 2),
        None => unavailable(),
    }
}

/// Renders a timestamp that may be missing.
pub fn format_timestamp(t: Option<Timestamp>) -> (r: String)
    ensures
        r@ == timestamp_text(t),
{
    match t {
        Some(t) => {
            let mut r = decimal_padded(t.year as u64, 4);
            r.append("-");
            r.append(decimal_padded(t.month as u64, 2).as_str());
            r.append("-");
            r.append(decimal_padded(t.day as u64, 2).as_str());
            r.append(" ");
            r.append(decimal_padded(t.hour as u64, 2).as_str());
            r.append(":");
            r.append(decimal_padded(t.minute as u64, 2).as_str());
            r.append(":");
            r.append(decimal_padded(t.second as u64, 2).as_str());
            r
        },
        None => {
            proof { reveal_strlit("unavailable"); }
            String::from_str("unavailable")
        },
    }
}

/// A checksum in decimal, or "unavailable" when there is none.
pub open spec fn crc_text(c: Option<u32>) -> Seq<char> {
    match c {
        Some(c) => dec(c as nat),
        None => unavailable(),
    }
}

/// A compressed size, or "unavailable" where the container does not give it.
pub open spec fn compressed_text(c: Option<u64>, human: bool) -> Seq<char> {
    match c {
        Some(c) => size_text(c, human),
        None => unavailable(),
    }
}

/// The compression ratio of a member, or "unavailable" without a compressed size.
pub open spec fn ratio_text(c: Option<u64>, u: u64) -> Seq<char> {
    match c {
        Some(c) => percent_text(ratio_hundredths(c, u)),
        None => unavailable(),
    }
}

/// The listing line of one entry. A directory shows its quoted path alone; a
/// file shows sizes, ratio, type, modification time and checksum.
pub open spec fn entry_text(e: ReportView, kind: Seq<char>, human: bool) -> Seq<char> {
    if e.is_directory {
        "\""@ + e.path + "\""@
    } else {
        "\""@ + e.path + "\" ("@ + compressed_text(e.compressed_size, human) + "/"@
            + size_text(e.uncompressed_size, human) + ") ("@
            + ratio_text(e.compressed_size, e.uncompressed_size) + ") ("@ + kind + ") (last modified: "@ + timestamp_text(e.last_modified) + ") ("@
            + crc_text(e.crc32) + ")"@ + if e.encrypted { " (encrypted)"@ } else { Seq::empty() }
    }
}

/// Renders the listing line of an entry, given the display name of its type.
pub fn entry_line(e: &EntryReport, kind: &str, human: bool) -> (r: String)
    ensures
        r@ == entry_text(e@, kind@, human),
{
    let mut r = String::from_str("\"");
    r.append(e.path.as_str());
    if e.is_directory {
        r.append("\"");
        return r;
    }
    r.append("\" (");
    proof { reveal_strlit("unavailable"); }
    match e.compressed_size {
        Some(c) => r.append(format_size(c, human).as_str()),
        None => r.append("unavailable"),
    }
    r.append("/");
    r.append(format_size(e.uncompressed_size, human).as_str());
    r.append(") (");
    match e.compressed_size {
        Some(c) => r.append(format_ratio(c, e.uncompressed_size).as_str()),
        None => r.append("unavailable"),
    }
    r.append(") (");
    r.append(kind);
    r.append(") (last modified: ");
    r.append(format_timestamp(e.last_modified).as_str());
    r.append(") (");
    match e.crc32 {
        Some(c) => r.append(decimal(c as u128).as_str()),
        None => {
            proof { reveal_strlit("unavailable"); }
            r.append("unavailable")
        },
    }
    r.append(")");
    if e.encrypted {
        r.append(" (encrypted)");
    } else {
        proof { assert(r@ + Seq::<char>::empty() =~= r@); }
    }
    r
}

/// The method names, each followed by a space.
pub open spec fn methods_text(ms: Seq<Method>) -> Seq<char>
    decreases ms.len(),
{
    if ms.len() == 0 {
        Seq::empty()
    } else {
        methods_text(ms.drop_last()) + method_text(ms.last()) + " "@
    }
}

/// Renders the line that lists the compression methods used.
pub fn methods_line(ms: &Vec<Method>) -> (r: String)
    ensures
        r@ == "# Compression methods used: "@ + methods_text(ms@),
{
    let mut r = String::from_str("# Compression methods used: ");
    let mut i: usize = 0;
    proof {
        assert(ms@.subrange(0, 0) =~= Seq::<Method>::empty());
        assert(r@ =~= r@ + methods_text(Seq::<Method>::empty()));
    }
    while i < ms.len()
        invariant
            i <= ms@.len(),
            r@ == "# Compression methods used: "@ + methods_text(ms@.subrange(0, i as int)),
        decreases ms@.len() - i,
    {
        proof {
            assert(ms@.subrange(0, i + 1).drop_last() =~= ms@.subrange(0, i as int));
        }
        let name = method_name(ms[i]);
        r.append(name.as_str());
        r.append(" ");
        i = i + 1;
        proof {
            assert(r@ =~= "# Compression methods used: "@ + methods_text(ms@.subrange(0, i as int)));
        }
    }
    proof {
        assert(ms@.subrange(0, i as int) =~= ms@);
    }
    r
}

/// An archive total: shown as a byte count of its own when it fits in 64 bits,
/// in decimal otherwise.
pub open spec fn total_text(n: u128, human: bool) -> Seq<char> {
    if n <= 0xffff_ffff_ffff_ffff { size_text(n as u64, human) } else { dec(n as nat) }
}

fn format_total(n: u128, human: bool) -> (r: String)
    ensures
        r@ == total_text(n, human),
{
    if n <= 0xffff_ffff_ffff_ffff {
        format_size(n as u64, human)
    } else {
        decimal(n)
    }
}

/// The line with the archive's total sizes; the ratio is shown when both totals
/// fit in 64 bits.
pub open spec fn totals_text(c: u128, u: u128, human: bool) -> Seq<char> {
    "# Compressed size: "@ + total_text(c, human) + "/"@ + total_text(u, human) + if c <= 0xffff_ffff_ffff_ffff
        && u <= 0xffff_ffff_ffff_ffff {
        " ("@ + percent_text(ratio_hundredths(c as u64, u as u64)) + ")"@
    } else {
        Seq::empty()
    }
}

/// Renders the line with the archive's total sizes and overall ratio.
pub fn totals_line(s: &ArchiveSummary, human: bool) -> (r: String)
    ensures
        r@ == totals_text(s.total_compressed_size, s.total_uncompressed_size, human),
{
    let c = s.total_compressed_size;
    let u = s.total_uncompressed_size;
    let mut r = String::from_str("# Compressed size: ");
    r.append(format_total(c, human).as_str());
    r.append("/");
    r.append(format_total(u, human).as_str());
    if c <= 0xffff_ffff_ffff_ffff && u <= 0xffff_ffff_ffff_ffff {
        r.append(" (");
        r.append(format_ratio(c as u64, u as u64).as_str());
        r.append(")");
    } else {
        proof { assert(r@ + Seq::<char>::empty() =~= r@); }
    }
    r
}

/// Renders the listing line of every listed entry, each with the catalog's
/// name for the type its extension stands for.
pub fn entry_lines(s: &ArchiveSummary, catalog: &Catalog, human: bool) -> (r: Vec<String>)
    ensures
        r@.len() == s.entries@.len(),
        forall|i: int| 0 <= i < r@.len() ==> #[trigger] r@[i]@ == entry_text(
            s.entries@[i]@,
            name_for(catalog.extensions@, extension_text(s.entries@[i].path@)),
            human,
        ),
{
    let mut r: Vec<String> = Vec::new();
    let mut i: usize = 0;
    while i < s.entries.len()
        invariant
            i <= s.entries@.len(),
            r@.len() == i,
            forall|k: int| 0 <= k < i ==> #[trigger] r@[k]@ == entry_text(
                s.entries@[k]@,
                name_for(catalog.extensions@, extension_text(s.entries@[k].path@)),
                human,
            ),
        decreases s.entries@.len() - i,
    {
        let e = &s.entries[i];
        let ext = extension_of(e.path.as_str());
        let kind = catalog.display_name(ext.as_str());
        r.push(entry_line(e, kind.as_str(), human));
        i = i + 1;
    }
    r
}

} // verus!
