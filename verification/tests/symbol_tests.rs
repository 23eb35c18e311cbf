use memregion::items::Symbol;
use memregion::region::Region;
use memregion::select::select_symbols;

fn symbol(address: u64, name: &str) -> Symbol {
    Symbol { address, name: Some(name.to_string()) }
}

#[test]
fn same_address_sorts_by_descending_name() {
    let r = Region { start: 0x0, end: 0x1000 };
    let syms = vec![symbol(0x100, "A"), symbol(0x100, "B")];
    let out = select_symbols(&r, &syms);
    let names: Vec<&str> = out.iter().map(|s| s.name.as_str()).collect();
    assert_eq!(names, vec!["B", "A"]);
}

#[test]
fn addresses_sort_ascending() {
    let r = Region { start: 0x0, end: 0x1000 };
    let syms = vec![symbol(0x300, "late"), symbol(0x100, "early"), symbol(0x200, "middle")];
    let out = select_symbols(&r, &syms);
    let addrs: Vec<u64> = out.iter().map(|s| s.address).collect();
    assert_eq!(addrs, vec![0x100, 0x200, 0x300]);
}

#[test]
fn ordering_is_reproducible() {
    let r = Region { start: 0x0, end: 0x1000 };
    let syms = vec![
        symbol(0x100, "_edata"),
        symbol(0x100, "_sdata"),
        symbol(0x100, ".data"),
    ];
    let first: Vec<String> =
        select_symbols(&r, &syms).into_iter().map(|s| s.name).collect();
    let second: Vec<String> =
        select_symbols(&r, &syms).into_iter().map(|s| s.name).collect();
    assert_eq!(first, second);
    assert_eq!(first, vec!["_sdata", "_edata", ".data"]);
}

#[test]
fn out_of_region_and_unnamed_symbols_drop() {
    let r = Region { start: 0x100, end: 0x200 };
    let syms = vec![
        symbol(0x050, "below"),
        symbol(0x150, "kept"),
        Symbol { address: 0x160, name: None },
        symbol(0x200, "at_end"),
    ];
    let out = select_symbols(&r, &syms);
    assert_eq!(out.len(), 1);
    assert_eq!(out[0].name, "kept");
    assert_eq!(out[0].address, 0x150);
}
