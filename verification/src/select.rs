use vstd::prelude::*;
use crate::items::{NamedSymbol, NamedSymbolV, Section, SectionV, Symbol, SymbolV};
use crate::region::Region;

verus! {

/// The model of a whole section list.
pub open spec fn section_views(secs: Seq<Section>) -> Seq<SectionV> {
    secs.map_values(|s: Section| s@)
}

/// The model of a whole symbol list.
pub open spec fn symbol_views(syms: Seq<Symbol>) -> Seq<SymbolV> {
    syms.map_values(|s: Symbol| s@)
}

/// The model of a whole named-symbol list.
pub open spec fn named_views(syms: Seq<NamedSymbol>) -> Seq<NamedSymbolV> {
    syms.map_values(|s: NamedSymbol| s@)
}

/// Each section starts no earlier than the one before it.
pub open spec fn sections_ascending(secs: Seq<SectionV>) -> bool {
    forall|k: int| 1 <= k < secs.len() ==> (#[trigger] secs[k].address) >= secs[k - 1].address
}

/// Whether a symbol survives selection for `r`: its address lies in the
/// region and its name decoded as text.
pub open spec fn symbol_kept(r: Region) -> spec_fn(SymbolV) -> bool {
    |s: SymbolV| r.spec_contains(s.address) && s.name is Some
}

/// Whether a section's address lies inside `r`.
pub open spec fn section_kept(r: Region) -> spec_fn(SectionV) -> bool {
    |s: SectionV| r.spec_contains(s.address)
}

/// A kept symbol, paired with its decoded name.
pub open spec fn to_named(s: SymbolV) -> NamedSymbolV {
    NamedSymbolV { address: s.address, name: s.name.unwrap() }
}

/// `to_named`, as a value to map over a selection.
pub open spec fn to_named_fn() -> spec_fn(SymbolV) -> NamedSymbolV {
    |s: SymbolV| to_named(s)
}

/// Lexicographic order on names, by code point.
pub open spec fn lex_lt(a: Seq<char>, b: Seq<char>) -> bool
    decreases a.len(),
{
    if b.len() == 0 {
        false
    } else if a.len() == 0 {
        true
    } else if a[0] != b[0] {
        (a[0] as u32) < (b[0] as u32)
    } else {
        lex_lt(a.skip(1), b.skip(1))
    }
}

/// `a` is listed strictly before `b`: ascending address, ties broken by
/// descending name.
pub open spec fn sym_lt(a: NamedSymbolV, b: NamedSymbolV) -> bool {
    a.address < b.address || (a.address == b.address && lex_lt(b.name, a.name))
}

/// `a` need not come after `b` in the listing.
pub open spec fn sym_le(a: NamedSymbolV, b: NamedSymbolV) -> bool {
    !sym_lt(b, a)
}

/// The listing order: every pair of entries respects `sym_le`.
pub open spec fn symbols_sorted(s: Seq<NamedSymbolV>) -> bool {
    forall|i: int, j: int| 0 <= i < j < s.len() ==> sym_le(#[trigger] s[i], #[trigger] s[j])
}

proof fn lemma_lex_lt_irrefl(a: Seq<char>)
    ensures
        !lex_lt(a, a),
    decreases a.len(),
{
    if a.len() > 0 {
        lemma_lex_lt_irrefl(a.skip(1));
    }
}

proof fn lemma_sym_le_refl(a: NamedSymbolV)
    ensures
        sym_le(a, a),
{
    lemma_lex_lt_irrefl(a.name);
}

proof fn lemma_lex_lt_trans(a: Seq<char>, b: Seq<char>, c: Seq<char>)
    requires
        lex_lt(a, b),
        lex_lt(b, c),
    ensures
        lex_lt(a, c),
    decreases a.len(),
{
    if a.len() == 0 {
    } else {
        if a[0] == b[0] && b[0] == c[0] {
            lemma_lex_lt_trans(a.skip(1), b.skip(1), c.skip(1));
        }
    }
}

proof fn lemma_sym_lt_trans(a: NamedSymbolV, b: NamedSymbolV, c: NamedSymbolV)
    requires
        sym_lt(a, b),
        sym_lt(b, c),
    ensures
        sym_lt(a, c),
{
    if a.address == b.address && b.address == c.address {
        lemma_lex_lt_trans(c.name, b.name, a.name);
    }
}

proof fn lemma_lex_lt_connected(a: Seq<char>, b: Seq<char>)
    requires
        !lex_lt(a, b),
        !lex_lt(b, a),
    ensures
        a == b,
    decreases a.len(),
{
    if a.len() == 0 || b.len() == 0 {
        assert(a =~= b);
    } else {
        assert((a[0] as u32) == (b[0] as u32));
        vstd::utf8::char_u32_cast(a[0], a[0] as u32);
        vstd::utf8::char_u32_cast(b[0], b[0] as u32);
        assert(a[0] == b[0]);
        lemma_lex_lt_connected(a.skip(1), b.skip(1));
        assert forall|i: int| 0 <= i < a.len() implies a[i] == b[i] by {
            if i >= 1 {
                assert(a[i] == a.skip(1)[i - 1]);
                assert(b[i] == b.skip(1)[i - 1]);
            }
        }
        assert(a =~= b);
    }
}

/// Law: the listing order is total, and two symbols that each may
/// precede the other are the same entry — so one sorted listing exists
/// for a given set of symbols, and the print order is deterministic.
pub proof fn lemma_listing_order_deterministic(a: NamedSymbolV, b: NamedSymbolV)
    ensures
        sym_le(a, b) || sym_le(b, a),
        sym_le(a, b) && sym_le(b, a) ==> a == b,
{
    if sym_lt(a, b) && sym_lt(b, a) {
        if a.address == b.address {
            lemma_lex_lt_trans(a.name, b.name, a.name);
            lemma_lex_lt_irrefl(a.name);
        }
    }
    if sym_le(a, b) && sym_le(b, a) {
        lemma_lex_lt_connected(a.name, b.name);
    }
}

/// Selection for one region: the sub-sequence of sections whose address
/// lies inside it, in their original order.
pub fn select_sections(r: &Region, secs: &Vec<Section>) -> (out: Vec<Section>)
    ensures
        section_views(out@) == section_views(secs@).filter(section_kept(*r)),
{
    let ghost pred = section_kept(*r);
    let ghost sv = section_views(secs@);
    let mut out: Vec<Section> = Vec::new();
    proof {
        reveal(Seq::filter);
        assert(sv.take(0) =~= Seq::<SectionV>::empty());
        assert(section_views(out@) =~= sv.take(0).filter(pred));
    }
    let mut i: usize = 0;
    while i < secs.len()
        invariant
            i <= secs.len(),
            sv == section_views(secs@),
            pred == section_kept(*r),
            section_views(out@) == sv.take(i as int).filter(pred),
        decreases secs.len() - i,
    {
        let ghost old_out = out@;
        if r.contains(secs[i].address) {
            let dup = secs[i].duplicate();
            out.push(dup);
        }
        proof {
            reveal(Seq::filter);
            assert(sv.take(i + 1).drop_last() =~= sv.take(i as int));
            assert(sv.take(i + 1).last() == sv[i as int]);
            assert(sv[i as int] == secs@[i as int]@);
            if pred(sv[i as int]) {
                assert(section_views(out@) =~= section_views(old_out).push(secs@[i as int]@));
                assert(sv.take(i + 1).filter(pred) == sv.take(i as int).filter(pred).push(
                    sv[i as int],
                ));
            } else {
                assert(section_views(out@) =~= section_views(old_out));
                assert(sv.take(i + 1).filter(pred) == sv.take(i as int).filter(pred));
            }
        }
        i = i + 1;
    }
    proof {
        assert(sv.take(secs@.len() as int) =~= sv);
    }
    out
}

/// Whether the section list is already in ascending-address order, as
/// the allocation reporter demands of its caller.
pub fn check_ascending(secs: &Vec<Section>) -> (b: bool)
    ensures
        b == sections_ascending(section_views(secs@)),
{
    let ghost sv = section_views(secs@);
    let mut i: usize = 1;
    while i < secs.len()
        invariant
            1 <= i,
            i <= secs.len() || secs.len() == 0,
            sv == section_views(secs@),
            forall|k: int| 1 <= k < i ==> (#[trigger] sv[k].address) >= sv[k - 1].address,
        decreases secs.len() - i,
    {
        if secs[i - 1].address > secs[i].address {
            proof {
                assert(sv[i as int] == secs@[i as int]@);
                assert(sv[i - 1] == secs@[i - 1]@);
                assert(sv[i as int].address < sv[i - 1].address);
            }
            return false;
        }
        proof {
            assert(sv[i as int] == secs@[i as int]@);
            assert(sv[i - 1] == secs@[i - 1]@);
        }
        i = i + 1;
    }
    true
}

/// Lexicographic comparison of two names, by code point.
fn name_lt(a: &str, b: &str) -> (r: bool)
    ensures
        r == lex_lt(a@, b@),
{
    let alen = a.unicode_len();
    let blen = b.unicode_len();
    let mut i: usize = 0;
    proof {
        assert(a@.skip(0) =~= a@);
        assert(b@.skip(0) =~= b@);
    }
    loop
        invariant
            i <= alen,
            i <= blen,
            alen == a@.len(),
            blen == b@.len(),
            lex_lt(a@, b@) == lex_lt(a@.skip(i as int), b@.skip(i as int)),
        decreases alen - i,
    {
        if i >= blen {
            proof {
                assert(b@.skip(i as int).len() == 0);
            }
            return false;
        }
        if i >= alen {
            proof {
                assert(a@.skip(i as int).len() == 0);
                assert(b@.skip(i as int).len() > 0);
            }
            return true;
        }
        let ca = a.get_char(i);
        let cb = b.get_char(i);
        if ca != cb {
            proof {
                assert(a@.skip(i as int)[0] == a@[i as int]);
                assert(b@.skip(i as int)[0] == b@[i as int]);
            }
            return (ca as u32) < (cb as u32);
        }
        proof {
            assert(a@.skip(i as int)[0] == a@[i as int]);
            assert(b@.skip(i as int)[0] == b@[i as int]);
            assert(a@.skip(i as int).skip(1) =~= a@.skip(i + 1));
            assert(b@.skip(i as int).skip(1) =~= b@.skip(i + 1));
        }
        i = i + 1;
    }
}

/// Strict listing order on two named symbols.
fn named_lt(a: &NamedSymbol, b: &NamedSymbol) -> (r: bool)
    ensures
        r == sym_lt(a@, b@),
{
    if a.address < b.address {
        true
    } else if a.address == b.address {
        name_lt(b.name.as_str(), a.name.as_str())
    } else {
        false
    }
}

/// Sort named symbols into the listing order: ascending address,
/// descending name on ties.
fn sort_named(input: Vec<NamedSymbol>) -> (out: Vec<NamedSymbol>)
    ensures
        symbols_sorted(named_views(out@)),
        named_views(out@).to_multiset() == named_views(input@).to_multiset(),
{
    broadcast use vstd::seq_lib::group_to_multiset_ensures;

    let ghost origv = named_views(input@);
    let mut v = input;
    let mut out: Vec<NamedSymbol> = Vec::new();
    proof {
        assert(named_views(out@) =~= Seq::<NamedSymbolV>::empty());
        assert(named_views(out@).to_multiset().add(named_views(v@).to_multiset())
            =~= origv.to_multiset());
    }
    while v.len() > 0
        invariant
            named_views(out@).to_multiset().add(named_views(v@).to_multiset())
                == origv.to_multiset(),
            symbols_sorted(named_views(out@)),
            forall|k: int, j: int|
                0 <= k < out@.len() && 0 <= j < v@.len() ==> sym_le(
                    #[trigger] named_views(out@)[k],
                    #[trigger] named_views(v@)[j],
                ),
        decreases v.len(),
    {
        let ghost vv = named_views(v@);
        let mut mi: usize = 0;
        let mut j: usize = 1;
        proof {
            assert(vv[0] == v@[0]@);
            lemma_sym_le_refl(vv[0]);
        }
        while j < v.len()
            invariant
                0 < v@.len(),
                mi < j,
                j <= v@.len(),
                vv == named_views(v@),
                forall|k: int| 0 <= k < j ==> sym_le(vv[mi as int], #[trigger] vv[k]),
            decreases v.len() - j,
        {
            proof {
                assert(vv[j as int] == v@[j as int]@);
                assert(vv[mi as int] == v@[mi as int]@);
            }
            if named_lt(&v[j], &v[mi]) {
                proof {
                    assert(sym_lt(vv[j as int], vv[mi as int]));
                    assert forall|k: int| 0 <= k < j + 1 implies sym_le(
                        vv[j as int],
                        #[trigger] vv[k],
                    ) by {
                        if k == j {
                            lemma_sym_le_refl(vv[j as int]);
                        } else if sym_lt(vv[k], vv[j as int]) {
                            lemma_sym_lt_trans(vv[k], vv[j as int], vv[mi as int]);
                        }
                    }
                }
                mi = j;
            }
            j = j + 1;
        }
        let ghost outv = named_views(out@);
        let x = v.remove(mi);
        out.push(x);
        proof {
            broadcast use vstd::multiset::group_multiset_axioms;

            assert(x@ == vv[mi as int]);
            assert(named_views(v@) =~= vv.remove(mi as int));
            assert(named_views(out@) =~= outv.push(x@));
            assert(vv.contains(x@)) by {
                assert(vv[mi as int] == x@);
            }
            vstd::seq_lib::to_multiset_contains(vv, x@);
            vstd::seq_lib::to_multiset_remove(vv, mi as int);
            vstd::seq_lib::to_multiset_build(outv, x@);
            assert(vv.to_multiset().count(x@) > 0);
            assert(named_views(out@).to_multiset().add(named_views(v@).to_multiset())
                =~= origv.to_multiset());
            assert forall|k: int, jj: int|
                0 <= k < out@.len() && 0 <= jj < v@.len() implies sym_le(
                #[trigger] named_views(out@)[k],
                #[trigger] named_views(v@)[jj],
            ) by {
                assert(named_views(v@)[jj] == if jj < mi as int {
                    vv[jj]
                } else {
                    vv[jj + 1]
                });
                if k < out@.len() - 1 {
                    assert(named_views(out@)[k] == outv[k]);
                } else {
                    assert(named_views(out@)[k] == x@);
                }
            }
            assert forall|k: int, jj: int| 0 <= k < jj < named_views(out@).len() implies sym_le(
                #[trigger] named_views(out@)[k],
                #[trigger] named_views(out@)[jj],
            ) by {
                if jj < out@.len() - 1 {
                    assert(named_views(out@)[k] == outv[k]);
                    assert(named_views(out@)[jj] == outv[jj]);
                } else {
                    assert(named_views(out@)[jj] == x@);
                    assert(named_views(out@)[k] == outv[k]);
                    assert(sym_le(outv[k], vv[mi as int]));
                }
            }
        }
    }
    out
}

/// Region selection and ordering of the symbol listing: keep the
/// symbols whose address lies in `r` and whose name decoded, and list
/// them by ascending address with descending names on ties.
pub fn select_symbols(r: &Region, syms: &Vec<Symbol>) -> (out: Vec<NamedSymbol>)
    ensures
        symbols_sorted(named_views(out@)),
        named_views(out@).to_multiset() == symbol_views(syms@).filter(symbol_kept(*r)).map_values(
            to_named_fn(),
        ).to_multiset(),
{
    let ghost pred = symbol_kept(*r);
    let ghost sv = symbol_views(syms@);
    let mut picked: Vec<NamedSymbol> = Vec::new();
    proof {
        reveal(Seq::filter);
        assert(sv.take(0) =~= Seq::<SymbolV>::empty());
        assert(named_views(picked@) =~= sv.take(0).filter(pred).map_values(to_named_fn()));
    }
    let mut i: usize = 0;
    while i < syms.len()
        invariant
            i <= syms.len(),
            sv == symbol_views(syms@),
            pred == symbol_kept(*r),
            named_views(picked@) == sv.take(i as int).filter(pred).map_values(to_named_fn()),
        decreases syms.len() - i,
    {
        let ghost old_picked = picked@;
        if r.contains(syms[i].address) {
            match &syms[i].name {
                Some(n) => {
                    let entry = NamedSymbol { address: syms[i].address, name: n.clone() };
                    picked.push(entry);
                },
                None => {},
            }
        }
        proof {
            reveal(Seq::filter);
            assert(sv.take(i + 1).drop_last() =~= sv.take(i as int));
            assert(sv.take(i + 1).last() == sv[i as int]);
            assert(sv[i as int] == syms@[i as int]@);
            if pred(sv[i as int]) {
                assert(sv.take(i + 1).filter(pred) == sv.take(i as int).filter(pred).push(
                    sv[i as int],
                ));
                assert(named_views(picked@) =~= named_views(old_picked).push(
                    to_named(sv[i as int]),
                ));
                assert(sv.take(i + 1).filter(pred).map_values(to_named_fn()) =~= sv.take(
                    i as int,
                ).filter(pred).map_values(to_named_fn()).push(to_named(sv[i as int])));
            } else {
                assert(named_views(picked@) =~= named_views(old_picked));
                assert(sv.take(i + 1).filter(pred) == sv.take(i as int).filter(pred));
            }
        }
        i = i + 1;
    }
    proof {
        assert(sv.take(syms@.len() as int) =~= sv);
    }
    sort_named(picked)
}

} // verus!
