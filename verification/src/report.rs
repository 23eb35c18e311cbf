use vstd::prelude::*;
use crate::bytes::{round_div, Bytes};
use crate::items::{Section, SectionV};
use crate::select::{section_views, sections_ascending};
use crate::region::Region;

verus! {

/// An alignment requirement is valid when it is a non-zero power of
/// two, so that `align - 1` is the mask of its low bits.
pub open spec fn spec_is_pow2(a: u64) -> bool {
    a != 0 && a & ((a - 1) as u64) == 0
}

/// The padding an alignment forces at cursor `last`: the gap from
/// `last` up to the next multiple of `align`, zero when `last` is
/// already aligned.
pub open spec fn spec_pad(last: int, align: int) -> int {
    (align - last % align) % align
}

/// Whether `a` is a non-zero power of two.
pub fn is_power_of_two(a: u64) -> (b: bool)
    ensures
        b == spec_is_pow2(a),
{
    a != 0 && a & (a - 1) == 0
}

proof fn lemma_pow2_exponent(a: u64)
    requires
        spec_is_pow2(a),
    ensures
        exists|n: nat| n < 64 && vstd::arithmetic::power2::pow2(n) == a as nat,
    decreases a,
{
    if a == 1 {
        vstd::arithmetic::power2::lemma2_to64();
        assert(0 < 64 && vstd::arithmetic::power2::pow2(0) == a as nat);
    } else {
        let h = a >> 1u64;
        assert(h != 0 && h & ((h - 1) as u64) == 0 && h < a && a == 2 * h) by (bit_vector)
            requires
                h == a >> 1u64 && a != 0 && a != 1 && a & ((a - 1) as u64) == 0,
        ;
        lemma_pow2_exponent(h);
        let n = choose|n: nat| n < 64 && vstd::arithmetic::power2::pow2(n) == h as nat;
        if n >= 63 {
            vstd::arithmetic::power2::lemma2_to64_rest();
            if n > 63 {
                vstd::arithmetic::power2::lemma_pow2_strictly_increases(63, n);
            }
            assert(false);
        }
        vstd::arithmetic::power2::lemma_pow2_unfold(n + 1);
        assert((n + 1) < 64 && vstd::arithmetic::power2::pow2(n + 1) == a as nat);
    }
}

/// The padding the reporter attributes to a section with alignment
/// `align` when the previous section ended at `last`: the gap up to
/// the next `align` boundary. It is zero exactly when `last` is
/// already a multiple of `align`; an alignment of one never pads.
pub fn compute_padding(last: u64, align: u64) -> (pad: u64)
    requires
        spec_is_pow2(align),
    ensures
        pad == spec_pad(last as int, align as int),
        (pad > 0) <==> (last as int % align as int != 0),
        align == 1 ==> pad == 0,
        pad < align,
{
    let mask = align - 1;
    let low = last & mask;
    proof {
        lemma_pow2_exponent(align);
        let n = choose|n: nat| n < 64 && vstd::arithmetic::power2::pow2(n) == align as nat;
        vstd::bits::lemma_u64_low_bits_mask_is_mod(last, n);
        vstd::arithmetic::power2::lemma_pow2_pos(n);
        assert(vstd::bits::low_bits_mask(n) == align - 1);
        assert((vstd::bits::low_bits_mask(n) as u64) == mask);
        assert((vstd::arithmetic::power2::pow2(n) as u64) == align);
        assert(low == last % align);
        if low == 0 {
            assert((align as int) % (align as int) == 0);
        } else {
            vstd::arithmetic::div_mod::lemma_small_mod(
                (align - low) as nat,
                align as nat,
            );
        }
    }
    if low == 0 {
        0
    } else {
        align - low
    }
}

/// One line of a region report: either an alignment gap, or a section
/// with its address range, size, and share of the region's capacity in
/// thousandths of a percent, rounded to the nearest.
#[derive(Debug)]
pub enum ReportLine {
    Padding { align: u64, pad: u64 },
    Entry { start: u64, end: u64, size: Bytes, percent_milli: u128, name: String },
}

/// The mathematical model of a `ReportLine`.
pub enum LineV {
    Padding { align: int, pad: int },
    Entry { start: int, end: int, size: int, percent_milli: int, name: Seq<char> },
}

impl View for ReportLine {
    type V = LineV;

    open spec fn view(&self) -> LineV {
        match self {
            ReportLine::Padding { align, pad } => LineV::Padding {
                align: *align as int,
                pad: *pad as int,
            },
            ReportLine::Entry { start, end, size, percent_milli, name } => LineV::Entry {
                start: *start as int,
                end: *end as int,
                size: size.0 as int,
                percent_milli: *percent_milli as int,
                name: name@,
            },
        }
    }
}

/// Why a report could not be produced.
#[derive(Clone, Copy, PartialEq, Eq, Structural, Debug)]
pub enum ReportError {
    /// A section's name did not decode as text.
    UnnamedSection { address: u64 },
    /// A section's alignment is not a non-zero power of two.
    BadAlignment { address: u64, align: u64 },
    /// A section's end address or the running total left 64 bits.
    Overflow { address: u64 },
    /// The object file itself did not parse.
    Unparseable,
    /// The section list was not in ascending-address order.
    OutOfOrder,
}

/// A finished report for one region.
#[derive(Debug)]
pub struct RegionReport {
    pub lines: Vec<ReportLine>,
    pub total: Bytes,
    pub total_percent_milli: u128,
}

/// The model of a report's line list.
pub open spec fn line_views(lines: Seq<ReportLine>) -> Seq<LineV> {
    lines.map_values(|l: ReportLine| l@)
}

/// The first failure the reporter meets when walking `secs` with the
/// cursor at `last` and the accumulator at `total`, or `None` when the
/// whole list reports cleanly.
pub open spec fn spec_err(last: int, total: int, secs: Seq<SectionV>) -> Option<ReportError>
    decreases secs.len(),
{
    if secs.len() == 0 {
        None
    } else {
        let s = secs[0];
        if !spec_is_pow2(s.align) {
            Some(ReportError::BadAlignment { address: s.address, align: s.align })
        } else if s.name is None {
            Some(ReportError::UnnamedSection { address: s.address })
        } else if s.address + s.size > u64::MAX {
            Some(ReportError::Overflow { address: s.address })
        } else if total + spec_pad(last, s.align as int) + s.size > u64::MAX {
            Some(ReportError::Overflow { address: s.address })
        } else {
            spec_err(
                s.address + s.size,
                total + spec_pad(last, s.align as int) + s.size,
                secs.skip(1),
            )
        }
    }
}

/// The lines the reporter emits for `secs`, starting with the cursor at
/// `last`, against a region of capacity `cap`.
pub open spec fn spec_lines(cap: int, last: int, secs: Seq<SectionV>) -> Seq<LineV>
    decreases secs.len(),
{
    if secs.len() == 0 {
        Seq::empty()
    } else {
        let s = secs[0];
        let pad = spec_pad(last, s.align as int);
        let end = s.address + s.size;
        let entry = LineV::Entry {
            start: s.address as int,
            end: end,
            size: s.size as int,
            percent_milli: round_div(s.size * 100000, cap),
            name: s.name.unwrap(),
        };
        let rest = spec_lines(cap, end, secs.skip(1));
        if pad > 0 {
            seq![LineV::Padding { align: s.align as int, pad: pad }, entry] + rest
        } else {
            seq![entry] + rest
        }
    }
}

/// The reporter's accumulated total: every section's size plus every
/// padding gap.
pub open spec fn spec_total(last: int, secs: Seq<SectionV>) -> int
    decreases secs.len(),
{
    if secs.len() == 0 {
        0
    } else {
        let s = secs[0];
        spec_pad(last, s.align as int) + s.size + spec_total(s.address + s.size, secs.skip(1))
    }
}

/// What one line contributes to the running total: its padding amount
/// or its section size.
pub open spec fn line_amount(l: LineV) -> int {
    match l {
        LineV::Padding { pad, .. } => pad,
        LineV::Entry { size, .. } => size,
    }
}

/// The sum of every line's contribution.
pub open spec fn lines_sum(lines: Seq<LineV>) -> int
    decreases lines.len(),
{
    if lines.len() == 0 {
        0
    } else {
        line_amount(lines[0]) + lines_sum(lines.skip(1))
    }
}

/// Every section's alignment is at least one, as every valid
/// (power-of-two) alignment is.
pub open spec fn aligns_valid(secs: Seq<SectionV>) -> bool {
    forall|i: int| 0 <= i < secs.len() ==> (#[trigger] secs[i].align) >= 1
}

/// Law: the sum of all emitted section sizes and padding gaps equals
/// the reported total.
pub proof fn lemma_total_is_line_sum(cap: int, last: int, secs: Seq<SectionV>)
    requires
        aligns_valid(secs),
    ensures
        lines_sum(spec_lines(cap, last, secs)) == spec_total(last, secs),
    decreases secs.len(),
{
    if secs.len() == 0 {
        assert(spec_lines(cap, last, secs) =~= Seq::<LineV>::empty());
        assert(lines_sum(spec_lines(cap, last, secs)) == 0);
        assert(spec_total(last, secs) == 0);
    } else {
        let s = secs[0];
        let p = spec_pad(last, s.align as int);
        let end = s.address + s.size;
        let entry = LineV::Entry {
            start: s.address as int,
            end: end,
            size: s.size as int,
            percent_milli: round_div(s.size * 100000, cap),
            name: s.name.unwrap(),
        };
        let rest = spec_lines(cap, end, secs.skip(1));
        assert(aligns_valid(secs.skip(1))) by {
            assert(forall|i: int|
                0 <= i < secs.skip(1).len() ==> (#[trigger] secs.skip(1)[i]) == secs[i + 1]);
        }
        lemma_total_is_line_sum(cap, end, secs.skip(1));
        assert(p >= 0);
        assert(spec_total(last, secs) == p + s.size + spec_total(end, secs.skip(1)));
        if p > 0 {
            let all = seq![LineV::Padding { align: s.align as int, pad: p }, entry] + rest;
            assert(spec_lines(cap, last, secs) == all);
            assert(all[0] == LineV::Padding { align: s.align as int, pad: p });
            assert(all.skip(1) =~= seq![entry] + rest);
            assert((seq![entry] + rest)[0] == entry);
            assert((seq![entry] + rest).skip(1) =~= rest);
            assert(lines_sum(all) == p + lines_sum(seq![entry] + rest));
            assert(lines_sum(seq![entry] + rest) == s.size + lines_sum(rest));
            assert(lines_sum(rest) == spec_total(end, secs.skip(1)));
            assert(lines_sum(spec_lines(cap, last, secs)) == spec_total(last, secs));
        } else {
            let all = seq![entry] + rest;
            assert(spec_lines(cap, last, secs) == all);
            assert(all[0] == entry);
            assert(all.skip(1) =~= rest);
            assert(lines_sum(all) == s.size + lines_sum(rest));
            assert(lines_sum(rest) == spec_total(end, secs.skip(1)));
            assert(lines_sum(spec_lines(cap, last, secs)) == spec_total(last, secs));
        }
    }
}

/// A section list legitimately fits a region when, walked from `last`,
/// every section begins at or after the cursor, at an address aligned
/// to its own requirement, and ends inside the region.
pub open spec fn sections_fit(r: Region, last: int, secs: Seq<SectionV>) -> bool
    decreases secs.len(),
{
    if secs.len() == 0 {
        true
    } else {
        let s = secs[0];
        &&& s.align >= 1
        &&& last <= s.address
        &&& (s.address as int) % (s.align as int) == 0
        &&& s.address + s.size <= r.end
        &&& sections_fit(r, s.address + s.size, secs.skip(1))
    }
}

/// The padding charged at an aligned gap never exceeds the gap: when
/// `addr` is a multiple of `g` and lies at or past `last`, the
/// distance from `last` to the next `g` boundary is at most
/// `addr - last`.
proof fn lemma_pad_within_gap(last: int, addr: int, g: int)
    requires
        g >= 1,
        0 <= last,
        last <= addr,
        addr % g == 0,
    ensures
        spec_pad(last, g) <= addr - last,
{
    vstd::arithmetic::div_mod::lemma_mod_bound(last, g);
    let m = last % g;
    if m == 0 {
        assert(g % g == 0);
    } else {
        vstd::arithmetic::div_mod::lemma_small_mod((g - m) as nat, g as nat);
        assert(spec_pad(last, g) == g - m);
        vstd::arithmetic::div_mod::lemma_fundamental_div_mod(last, g);
        vstd::arithmetic::div_mod::lemma_fundamental_div_mod(addr, g);
        let q = last / g;
        let aq = addr / g;
        assert(last == g * q + m);
        assert(addr == g * aq);
        assert(addr - last >= g - m) by (nonlinear_arith)
            requires
                g >= 1,
                0 < m < g,
                last == g * q + m,
                addr == g * aq,
                addr >= last,
        ;
    }
}

/// Law: the reported total of a section list that legitimately fits
/// inside its region never exceeds the capacity left from `last`.
pub proof fn lemma_total_within_capacity(r: Region, last: int, secs: Seq<SectionV>)
    requires
        r.wf(),
        0 <= last,
        last <= r.end,
        sections_fit(r, last, secs),
    ensures
        spec_total(last, secs) <= r.end - last,
    decreases secs.len(),
{
    if secs.len() > 0 {
        let s = secs[0];
        vstd::arithmetic::div_mod::lemma_mod_bound(s.align - last % (s.align as int), s.align as int);
        assert(spec_pad(last, s.align as int) >= 0);
        lemma_pad_within_gap(last, s.address as int, s.align as int);
        lemma_total_within_capacity(r, s.address + s.size, secs.skip(1));
        assert(spec_total(last, secs) == spec_pad(last, s.align as int) + s.size + spec_total(
            s.address + s.size,
            secs.skip(1),
        ));
        assert(spec_total(s.address + s.size, secs.skip(1)) <= r.end - (s.address + s.size));
    }
}

/// Whether a line's percentage is its size's share of the capacity,
/// in thousandths of a percent rounded to the nearest, and
/// non-negative; padding lines carry no percentage.
pub open spec fn line_percent_ok(cap: int, l: LineV) -> bool {
    match l {
        LineV::Padding { .. } => true,
        LineV::Entry { size, percent_milli, .. } => percent_milli == round_div(size * 100000, cap)
            && percent_milli >= 0,
    }
}

/// Law: every emitted percentage is exactly `size / capacity * 100`,
/// carried to three decimal digits and rounded to the nearest, and
/// never negative.
pub proof fn lemma_percentages(cap: int, last: int, secs: Seq<SectionV>)
    requires
        cap >= 1,
    ensures
        forall|i: int|
            0 <= i < spec_lines(cap, last, secs).len() ==> line_percent_ok(
                cap,
                #[trigger] spec_lines(cap, last, secs)[i],
            ),
    decreases secs.len(),
{
    if secs.len() > 0 {
        let s = secs[0];
        let p = spec_pad(last, s.align as int);
        let end = s.address + s.size;
        let rest = spec_lines(cap, end, secs.skip(1));
        lemma_percentages(cap, end, secs.skip(1));
        assert((2 * (s.size * 100000) + cap) / (2 * cap) >= 0) by (nonlinear_arith)
            requires
                cap >= 1,
                s.size >= 0,
        ;
        let all = spec_lines(cap, last, secs);
        let head = (if p > 0 {
            2int
        } else {
            1int
        });
        assert forall|i: int| 0 <= i < all.len() implies line_percent_ok(cap, all[i]) by {
            if i >= head {
                assert(all[i] == rest[i - head]);
            }
        }
    }
}

/// A size's share of a capacity, in thousandths of a percent:
/// `size / cap * 100` carried to three decimal digits and rounded to
/// the nearest (ties upward).
fn percent_milli(size: u64, cap: u64) -> (p: u128)
    requires
        cap >= 1,
    ensures
        p == round_div(size as int * 100000, cap as int),
{
    ((size as u128) * 200000 + (cap as u128)) / (2 * (cap as u128))
}

/// One region's allocation report: walk the sections in ascending
/// order, account the padding gap where the cursor falls short of a
/// section's alignment boundary, resolve each name, and accumulate sizes into the total.
pub fn report_region(r: &Region, secs: &Vec<Section>) -> (res: Result<RegionReport, ReportError>)
    requires
        r.wf(),
        sections_ascending(section_views(secs@)),
    ensures
        res is Ok <==> spec_err(r.start as int, 0, section_views(secs@)) is None,
        res is Err ==> Some(res->Err_0) == spec_err(r.start as int, 0, section_views(secs@)),
        res is Ok ==> line_views(res->Ok_0.lines@) == spec_lines(
            r.spec_capacity(),
            r.start as int,
            section_views(secs@),
        ),
        res is Ok ==> res->Ok_0.total.0 == spec_total(r.start as int, section_views(secs@)),
        res is Ok ==> res->Ok_0.total_percent_milli == round_div(
            spec_total(r.start as int, section_views(secs@)) * 100000,
            r.spec_capacity(),
        ),
{
    let ghost sv = section_views(secs@);
    let cap = r.capacity();
    let mut lines: Vec<ReportLine> = Vec::new();
    let mut total = Bytes(0);
    let mut last: u64 = r.start;
    let mut i: usize = 0;
    proof {
        assert(sv.len() == secs@.len());
        assert(sv.skip(0) =~= sv);
        assert(line_views(lines@) =~= Seq::<LineV>::empty());
        assert(line_views(lines@) + spec_lines(cap as int, last as int, sv.skip(0)) =~= spec_lines(
            cap as int,
            r.start as int,
            sv,
        ));
    }
    while i < secs.len()
        invariant
            i <= secs.len(),
            sv == section_views(secs@),
            sv.len() == secs@.len(),
            r.wf(),
            cap == r.spec_capacity(),
            spec_err(r.start as int, 0, sv) == spec_err(
                last as int,
                total.0 as int,
                sv.skip(i as int),
            ),
            spec_lines(cap as int, r.start as int, sv) == line_views(lines@) + spec_lines(
                cap as int,
                last as int,
                sv.skip(i as int),
            ),
            spec_total(r.start as int, sv) == total.0 + spec_total(last as int, sv.skip(i as int)),
        decreases secs.len() - i,
    {
        let ghost rest = sv.skip(i as int);
        proof {
            assert(rest[0] == sv[i as int]);
            assert(sv[i as int] == secs@[i as int]@);
            assert(rest.skip(1) =~= sv.skip(i + 1));
        }
        let sec = &secs[i];
        if !is_power_of_two(sec.align) {
            return Err(ReportError::BadAlignment { address: sec.address, align: sec.align });
        }
        let pad = compute_padding(last, sec.align);
        let ghost lines_before = lines@;
        if pad > 0 {
            lines.push(ReportLine::Padding { align: sec.align, pad: pad });
        }
        let nm = match &sec.name {
            Some(n) => n.clone(),
            None => {
                return Err(ReportError::UnnamedSection { address: sec.address });
            },
        };
        let end = match sec.address.checked_add(sec.size) {
            Some(e) => e,
            None => {
                return Err(ReportError::Overflow { address: sec.address });
            },
        };
        let pct = percent_milli(sec.size, cap);
        lines.push(
            ReportLine::Entry {
                start: sec.address,
                end: end,
                size: Bytes(sec.size),
                percent_milli: pct,
                name: nm,
            },
        );
        let t1 = match total.checked_add(pad) {
            Some(t) => t,
            None => {
                return Err(ReportError::Overflow { address: sec.address });
            },
        };
        let t2 = match t1.checked_add(sec.size) {
            Some(t) => t,
            None => {
                return Err(ReportError::Overflow { address: sec.address });
            },
        };
        total = t2;
        proof {
            let s = sv[i as int];
            let p = spec_pad(last as int, s.align as int);
            let entry = LineV::Entry {
                start: s.address as int,
                end: s.address + s.size,
                size: s.size as int,
                percent_milli: round_div(s.size * 100000, cap as int),
                name: s.name.unwrap(),
            };
            let restlines = spec_lines(cap as int, s.address + s.size, rest.skip(1));
            if p > 0 {
                assert(line_views(lines@) =~= line_views(lines_before) + seq![
                    LineV::Padding { align: s.align as int, pad: p },
                    entry,
                ]);
                assert(spec_lines(cap as int, last as int, rest) == seq![
                    LineV::Padding { align: s.align as int, pad: p },
                    entry,
                ] + restlines);
            } else {
                assert(line_views(lines@) =~= line_views(lines_before) + seq![entry]);
                assert(spec_lines(cap as int, last as int, rest) == seq![entry] + restlines);
            }
            assert(spec_lines(cap as int, r.start as int, sv) =~= line_views(lines@) + spec_lines(
                cap as int,
                end as int,
                sv.skip(i + 1),
            ));
        }
        last = end;
        i = i + 1;
    }
    let pct = percent_milli(total.0, cap);
    proof {
        assert(sv.skip(secs@.len() as int) =~= Seq::<SectionV>::empty());
        assert(line_views(lines@) + Seq::<LineV>::empty() =~= line_views(lines@));
    }
    Ok(RegionReport { lines: lines, total: total, total_percent_milli: pct })
}

} // verus!
