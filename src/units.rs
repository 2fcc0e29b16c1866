use vstd::prelude::*;
use crate::decimal::{decimal, decimal_padded, dec, dec_padded, read_dec, lemma_read_dec};

verus! {

/// What `bytesize` renders a byte count as, in binary (KiB, MiB, ...) units.
pub uninterp spec fn human_bytes(n: u64) -> Seq<char>;

/// Relies on `bytesize::ByteSize::to_string_as(true)`: the text depends on the
/// count alone, and a count under 1024 reads as the count followed by " B".
#[verifier::external_body]
fn human_size(n: u64) -> (r: String)
    ensures
        r@ == human_bytes(n),
        n < 1024 ==> r@ == dec(n as nat) + " B"@,
{
    bytesize::ByteSize(n).to_string_as(true)
}

/// A byte count as shown in raw or in human-readable mode.
pub open spec fn size_text(n: u64, human: bool) -> Seq<char> {
    if human { human_bytes(n) } else { dec(n as nat) }
}

/// Renders a byte count: its decimal digits, or a human-scaled figure.
pub fn format_size(n: u64, human: bool) -> (r: String)
    ensures
        r@ == size_text(n, human),
        human && n < 1024 ==> r@ == dec(n as nat) + " B"@,
{
    if human {
        human_size(n)
    } else {
        decimal(n as u128)
    }
}

/// Raw mode shows the byte count itself: its text reads back as the count.
pub proof fn lemma_raw_size_reads_back(n: u64)
    ensures
        read_dec(size_text(n, false)) == n,
{
    lemma_read_dec(n as nat);
}

/// The compression ratio in hundredths of a percent, clamped to 0..=100 %.
/// An empty member is at 0 % when nothing was stored for it, else at 100 %.
pub open spec fn ratio_hundredths(compressed: u64, uncompressed: u64) -> nat {
    if uncompressed == 0 {
        if compressed == 0 { 0 } else { 10000 }
    } else if compressed >= uncompressed {
        10000
    } else {
        (compressed as nat * 10000) / (uncompressed as nat)
    }
}

/// Compression ratio of `compressed` over `uncompressed`, in hundredths of a
/// percent; never above 100 %.
pub fn ratio(compressed: u64, uncompressed: u64) -> (r: u64)
    ensures
        r == ratio_hundredths(compressed, uncompressed),
        r <= 10000,
{
    if uncompressed == 0 {
        if compressed == 0 { 0 } else { 10000 }
    } else if compressed >= uncompressed {
        10000
    } else {
        let c = compressed as u128;
        let u = uncompressed as u128;
        proof {
            let ci = c as int;
            let ui = u as int;
            assert(ci * 10000 < ui * 10000) by (nonlinear_arith)
                requires ci < ui;
            assert((ci * 10000) / ui < 10000) by (nonlinear_arith)
                requires ci * 10000 < ui * 10000, ui > 0;
        }
        ((c * 10000) / u) as u64
    }
}

/// The text of a ratio given in hundredths of a percent, as `12.34%`.
pub open spec fn percent_text(h: nat) -> Seq<char> {
    dec(h / 100) + "."@ + dec_padded(h % 100, 2) + "%"@
}

/// Renders the compression ratio of a member or an archive.
pub fn format_ratio(compressed: u64, uncompressed: u64) -> (r: String)
    ensures
        r@ == percent_text(ratio_hundredths(compressed, uncompressed)),
{
    let h = ratio(compressed, uncompressed);
    let mut r = decimal((h / 100) as u128);
    r.append(".");
    let frac = decimal_padded(h % 100, 2);
    r.append(frac.as_str());
    r.append("%");
    r
}

} // verus!
