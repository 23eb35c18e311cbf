use vstd::prelude::*;
use object::{Object, ObjectSection, ObjectSymbol};
use crate::items::{NamedSymbol, Section, SectionV, Symbol, SymbolV};
use crate::region::Region;
use crate::report::{spec_err, spec_lines, spec_total, line_views, RegionReport, ReportError};
use crate::select::{symbol_views,
    check_ascending, named_views, section_kept, section_views, sections_ascending, select_sections,
    select_symbols, symbol_kept, symbols_sorted, to_named_fn,
};

verus! {

/// The section list that the object-file reader decodes from an image,
/// or nothing when the image does not parse. A fixed function of the
/// bytes alone.
pub uninterp spec fn parsed_sections(data: Seq<u8>) -> Option<Seq<SectionV>>;

/// The symbol list that the object-file reader decodes from an image,
/// or nothing when the image does not parse. A fixed function of the
/// bytes alone.
pub uninterp spec fn parsed_symbols(data: Seq<u8>) -> Option<Seq<SymbolV>>;

/// Relies on object::File::parse and, per section, on
/// object::ObjectSection::address / size / align / name: each parsed
/// section's fields, with the name absent when it is not valid text.
#[verifier::external_body]
fn read_sections(data: &[u8]) -> (r: Option<Vec<Section>>)
    ensures
        r is Some <==> parsed_sections(data@) is Some,
        r is Some ==> section_views(r.unwrap()@) == parsed_sections(data@).unwrap(),
{
    let file = match object::File::parse(data) {
        Ok(f) => f,
        Err(_) => return None,
    };
    let mut out: Vec<Section> = Vec::new();
    for sec in file.sections() {
        let name = match sec.name() {
            Ok(n) => Some(n.to_string()),
            Err(_) => None,
        };
        out.push(
            Section { address: sec.address(), size: sec.size(), align: sec.align(), name: name },
        );
    }
    Some(out)
}

/// Relies on object::File::parse and, per symbol, on
/// object::ObjectSymbol::address / name: each parsed symbol's address,
/// with the name absent when it is not valid text.
#[verifier::external_body]
fn read_symbols(data: &[u8]) -> (r: Option<Vec<Symbol>>)
    ensures
        r is Some <==> parsed_symbols(data@) is Some,
        r is Some ==> symbol_views(r.unwrap()@) == parsed_symbols(data@).unwrap(),
{
    let file = match object::File::parse(data) {
        Ok(f) => f,
        Err(_) => return None,
    };
    let mut out: Vec<Symbol> = Vec::new();
    for sym in file.symbols() {
        let name = match sym.name() {
            Ok(n) => Some(n.to_string()),
            Err(_) => None,
        };
        out.push(Symbol { address: sym.address(), name: name });
    }
    Some(out)
}

/// The whole analysis for one region: decode the image, keep the
/// sections whose address falls inside the region, check the
/// ascending-order precondition the reporter demands, and produce the
/// allocation report.
pub fn analyze_image(data: &[u8], r: &Region) -> (res: Result<RegionReport, ReportError>)
    requires
        r.wf(),
    ensures
        parsed_sections(data@) is None ==> res == Err::<RegionReport, ReportError>(
            ReportError::Unparseable,
        ),
        parsed_sections(data@) is Some && !sections_ascending(
            parsed_sections(data@).unwrap().filter(section_kept(*r)),
        ) ==> res == Err::<RegionReport, ReportError>(ReportError::OutOfOrder),
        parsed_sections(data@) is Some && sections_ascending(
            parsed_sections(data@).unwrap().filter(section_kept(*r)),
        ) ==> {
            let sel = parsed_sections(data@).unwrap().filter(section_kept(*r));
            &&& res is Ok <==> spec_err(r.start as int, 0, sel) is None
            &&& res is Err ==> Some(res->Err_0) == spec_err(r.start as int, 0, sel)
            &&& res is Ok ==> line_views(res->Ok_0.lines@) == spec_lines(
                r.spec_capacity(),
                r.start as int,
                sel,
            )
            &&& res is Ok ==> res->Ok_0.total.0 == spec_total(r.start as int, sel)
            &&& res is Ok ==> res->Ok_0.total_percent_milli == crate::bytes::round_div(
                spec_total(r.start as int, sel) * 100000,
                r.spec_capacity(),
            )
        },
{
    let secs = match read_sections(data) {
        Some(s) => s,
        None => {
            return Err(ReportError::Unparseable);
        },
    };
    let sel = select_sections(r, &secs);
    if !check_ascending(&sel) {
        return Err(ReportError::OutOfOrder);
    }
    crate::report::report_region(r, &sel)
}

/// The diagnostic symbol listing for one region: decode the image,
/// keep the symbols that fall inside the region and whose name
/// decoded, and order them deterministically; nothing when the image
/// does not parse.
pub fn symbol_listing(data: &[u8], r: &Region) -> (res: Option<Vec<NamedSymbol>>)
    ensures
        res is Some <==> parsed_symbols(data@) is Some,
        res is Some ==> symbols_sorted(named_views(res.unwrap()@)),
        res is Some ==> named_views(res.unwrap()@).to_multiset() == parsed_symbols(
            data@,
        ).unwrap().filter(symbol_kept(*r)).map_values(to_named_fn()).to_multiset(),
{
    let syms = match read_symbols(data) {
        Some(s) => s,
        None => {
            return None;
        },
    };
    Some(select_symbols(r, &syms))
}

} // verus!
