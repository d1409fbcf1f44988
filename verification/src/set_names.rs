//! The Set-Names pass: deterministic naming.
//!
//! One forward pass over live modules, then live nodes in list order. Each
//! module gets a process-wide-unique name; each node output gets a name
//! unique within its module. A repeated request for one base symbol gets an
//! incrementing numeric suffix starting at one (the first use keeps the bare
//! symbol). A small fixed table of names reserved by the emission grammar is
//! remapped to an alternate spelling before the counter logic runs. Unnamed
//! outputs get a generic placeholder base; an unnamed instantiation is named
//! from its target module's name.

use vstd::prelude::*;
use vstd::string::StringExecFns;
use crate::module::Module;
use crate::netlist::NetList;
use crate::node::{ModInst, Node, NodeKind};

verus! {

/// The decimal digits of `n`, most significant first.
pub open spec fn dec_str(n: u128) -> Seq<char>
    decreases n,
{
    if n < 10 {
        seq![digit_char(n)]
    } else {
        dec_str(n / 10).push(digit_char(n % 10))
    }
}

/// The character of one decimal digit.
pub open spec fn digit_char(d: u128) -> char {
    if d == 0 {
        '0'
    } else if d == 1 {
        '1'
    } else if d == 2 {
        '2'
    } else if d == 3 {
        '3'
    } else if d == 4 {
        '4'
    } else if d == 5 {
        '5'
    } else if d == 6 {
        '6'
    } else if d == 7 {
        '7'
    } else if d == 8 {
        '8'
    } else {
        '9'
    }
}

/// One decimal digit as text.
fn digit_str(d: u128) -> (r: &'static str)
    requires
        d < 10,
    ensures
        r@ == seq![digit_char(d)],
{
    proof {
        reveal_strlit("0");
        reveal_strlit("1");
        reveal_strlit("2");
        reveal_strlit("3");
        reveal_strlit("4");
        reveal_strlit("5");
        reveal_strlit("6");
        reveal_strlit("7");
        reveal_strlit("8");
        reveal_strlit("9");
    }
    if d == 0 {
        "0"
    } else if d == 1 {
        "1"
    } else if d == 2 {
        "2"
    } else if d == 3 {
        "3"
    } else if d == 4 {
        "4"
    } else if d == 5 {
        "5"
    } else if d == 6 {
        "6"
    } else if d == 7 {
        "7"
    } else if d == 8 {
        "8"
    } else {
        "9"
    }
}

/// A number rendered in decimal.
pub fn dec_string(n: u128) -> (r: String)
    ensures
        r@ == dec_str(n),
    decreases n,
{
    if n < 10 {
        String::from_str(digit_str(n))
    } else {
        let prefix = dec_string(n / 10);
        prefix.concat(digit_str(n % 10))
    }
}

/// The suffixed form of a base symbol: the bare symbol for the first use, an
/// underscore and the counter value afterwards.
pub open spec fn make_sym_spec(sym: Seq<char>, count: usize) -> Seq<char> {
    if count == 0 {
        sym
    } else {
        sym + seq!['_'] + dec_str(count as u128)
    }
}

/// Renders a base symbol with its collision counter.
pub fn make_sym(sym: &String, count: usize) -> (r: String)
    ensures
        r@ == make_sym_spec(sym@, count),
{
    if count == 0 {
        sym.clone()
    } else {
        proof {
            reveal_strlit("_");
        }
        let with_sep = sym.clone().concat("_");
        let digits = dec_string(count as u128);
        with_sep.concat(digits.as_str())
    }
}

/// The reserved-name remapping: the four names the emission grammar reserves
/// go to their alternate spelling; every other symbol is kept as it is.
pub open spec fn remap_spec(s: Seq<char>) -> Seq<char> {
    if s == "input"@ {
        "input$"@
    } else if s == "output"@ {
        "output$"@
    } else if s == "reg"@ {
        "reg$"@
    } else if s == "self"@ {
        "self$"@
    } else {
        s
    }
}

/// Remaps a symbol reserved by the emission grammar to an alternate spelling;
/// any other symbol is kept.
pub fn remap_reserved(sym: &String) -> (r: String)
    ensures
        r@ == remap_spec(sym@),
{
    if sym.eq(&String::from_str("input")) {
        String::from_str("input$")
    } else if sym.eq(&String::from_str("output")) {
        String::from_str("output$")
    } else if sym.eq(&String::from_str("reg")) {
        String::from_str("reg$")
    } else if sym.eq(&String::from_str("self")) {
        String::from_str("self$")
    } else {
        sym.clone()
    }
}

/// The first table entry for a module/symbol pair, if one exists.
pub open spec fn find_ident(idents: Seq<IdentEntry>, mod_id: usize, sym: Seq<char>) -> Option<int>
    decreases idents.len(),
{
    if idents.len() == 0 {
        None
    } else if idents[0].mod_id == mod_id && idents[0].sym@ == sym {
        Some(0)
    } else {
        match find_ident(idents.drop_first(), mod_id, sym) {
            Some(i) => Some(i + 1),
            None => None,
        }
    }
}

/// The mathematical form of one per-module counter entry.
pub ghost struct IdentV {
    pub mod_id: usize,
    pub sym: Seq<char>,
    pub count: usize,
}

/// The mathematical form of the per-module counter table.
pub open spec fn idents_view(idents: Seq<IdentEntry>) -> Seq<IdentV> {
    idents.map_values(|e: IdentEntry| IdentV { mod_id: e.mod_id, sym: e.sym@, count: e.count })
}

/// The first table entry for a module/symbol pair, over the mathematical
/// table.
pub open spec fn find_identv(t: Seq<IdentV>, mod_id: usize, sym: Seq<char>) -> Option<int>
    decreases t.len(),
{
    if t.len() == 0 {
        None
    } else if t[0].mod_id == mod_id && t[0].sym == sym {
        Some(0)
    } else {
        match find_identv(t.drop_first(), mod_id, sym) {
            Some(i) => Some(i + 1),
            None => None,
        }
    }
}

/// The counter the next request of a base symbol receives: zero on first
/// use, one more than last time afterwards (saturating at the ceiling).
pub open spec fn next_count_spec(t: Seq<IdentV>, mod_id: usize, sym: Seq<char>) -> usize {
    match find_identv(t, mod_id, sym) {
        Some(i) => if t[i].count < usize::MAX {
            (t[i].count + 1) as usize
        } else {
            t[i].count
        },
        None => 0,
    }
}

/// The table after one request of a base symbol.
pub open spec fn bump_spec(t: Seq<IdentV>, mod_id: usize, sym: Seq<char>) -> Seq<IdentV> {
    match find_identv(t, mod_id, sym) {
        Some(i) => t.update(
            i,
            IdentV { mod_id, sym, count: next_count_spec(t, mod_id, sym) },
        ),
        None => t.push(IdentV { mod_id, sym, count: 0 }),
    }
}

/// The two table readings agree through the view.
pub proof fn lemma_find_view(idents: Seq<IdentEntry>, mod_id: usize, sym: Seq<char>)
    ensures
        find_identv(idents_view(idents), mod_id, sym) == find_ident(idents, mod_id, sym),
    decreases idents.len(),
{
    if idents.len() > 0 {
        assert(idents_view(idents).drop_first() =~= idents_view(idents.drop_first()));
        lemma_find_view(idents.drop_first(), mod_id, sym);
    }
}

/// The mathematical form of one process-wide module-name counter entry.
pub ghost struct ModIdentV {
    pub sym: Seq<char>,
    pub count: usize,
}

/// The mathematical form of the module-name counter table.
pub open spec fn module_idents_view(es: Seq<ModIdentEntry>) -> Seq<ModIdentV> {
    es.map_values(|e: ModIdentEntry| ModIdentV { sym: e.sym@, count: e.count })
}

/// The first module-name entry for a symbol.
pub open spec fn find_mident(t: Seq<ModIdentV>, sym: Seq<char>) -> Option<int>
    decreases t.len(),
{
    if t.len() == 0 {
        None
    } else if t[0].sym == sym {
        Some(0)
    } else {
        match find_mident(t.drop_first(), sym) {
            Some(i) => Some(i + 1),
            None => None,
        }
    }
}

/// The counter the next module-name request of a symbol receives.
pub open spec fn mnext_count_spec(t: Seq<ModIdentV>, sym: Seq<char>) -> usize {
    match find_mident(t, sym) {
        Some(i) => if t[i].count < usize::MAX {
            (t[i].count + 1) as usize
        } else {
            t[i].count
        },
        None => 0,
    }
}

/// The module-name table after one request of a symbol.
pub open spec fn mbump_spec(t: Seq<ModIdentV>, sym: Seq<char>) -> Seq<ModIdentV> {
    match find_mident(t, sym) {
        Some(i) => t.update(i, ModIdentV { sym, count: mnext_count_spec(t, sym) }),
        None => t.push(ModIdentV { sym, count: 0 }),
    }
}

/// The lookup reads symbols only: tables agreeing on symbols agree on it.
pub proof fn lemma_find_mident_syms(t1: Seq<ModIdentV>, t2: Seq<ModIdentV>, s: Seq<char>)
    requires
        t1.len() == t2.len(),
        forall|k: int| 0 <= k < t1.len() ==> (#[trigger] t1[k]).sym == t2[k].sym,
    ensures
        find_mident(t1, s) == find_mident(t2, s),
    decreases t1.len(),
{
    if t1.len() > 0 {
        assert(forall|k: int|
            0 <= k < t1.drop_first().len() ==> (#[trigger] t1.drop_first()[k]).sym
                == t2.drop_first()[k].sym);
        lemma_find_mident_syms(t1.drop_first(), t2.drop_first(), s);
    }
}

/// A found entry carries the symbol looked up.
pub proof fn lemma_find_mident_found(t: Seq<ModIdentV>, s: Seq<char>)
    ensures
        match find_mident(t, s) {
            Some(i) => 0 <= i < t.len() && t[i].sym == s,
            None => true,
        },
    decreases t.len(),
{
    if t.len() > 0 {
        lemma_find_mident_found(t.drop_first(), s);
    }
}

/// Appending one entry changes a lookup only where none was found.
pub proof fn lemma_find_mident_push(t: Seq<ModIdentV>, e: ModIdentV, s: Seq<char>)
    ensures
        find_mident(t.push(e), s) == (match find_mident(t, s) {
            Some(i) => Some(i),
            None => if e.sym == s {
                Some(t.len() as int)
            } else {
                None
            },
        }),
    decreases t.len(),
{
    if t.len() == 0 {
        assert(t.push(e)[0] == e);
        assert(t.push(e).drop_first() =~= t);
    } else {
        assert(t.push(e)[0] == t[0]);
        assert(t.push(e).drop_first() =~= t.drop_first().push(e));
        lemma_find_mident_push(t.drop_first(), e, s);
    }
}

/// The base symbol one node output requests: its own symbol, or the generic
/// placeholder where it has none.
pub open spec fn out_base(nd: crate::node::Node, o: int) -> Seq<char> {
    match nd.outputs[o].sym {
        Some(s) => s@,
        None => "__tmp"@,
    }
}

/// The counter table after the first `k` outputs of a node have requested
/// their base symbols, in order.
pub open spec fn node_table_after(t: Seq<IdentV>, mod_id: usize, nd: crate::node::Node, k: int) -> Seq<
    IdentV,
>
    decreases k,
{
    if k <= 0 {
        t
    } else {
        bump_spec(node_table_after(t, mod_id, nd, k - 1), mod_id, out_base(nd, k - 1))
    }
}

/// The symbol output `o` of a node receives, starting from counter table
/// `t`: the reserved-name remap of its base, suffixed with the counter that
/// counts the prior requests of that base.
pub open spec fn assigned_out_sym(t: Seq<IdentV>, mod_id: usize, nd: crate::node::Node, o: int) -> Seq<
    char,
> {
    make_sym_spec(
        remap_spec(out_base(nd, o)),
        next_count_spec(node_table_after(t, mod_id, nd, o), mod_id, out_base(nd, o)),
    )
}

/// A decimal rendering has at least one digit.
pub proof fn lemma_dec_str_len(n: u128)
    ensures
        dec_str(n).len() >= 1,
    decreases n,
{
    if n >= 10 {
        lemma_dec_str_len(n / 10);
    }
}

/// Two numbers with the same decimal rendering are the same number.
pub proof fn lemma_dec_str_injective(a: u128, b: u128)
    requires
        dec_str(a) == dec_str(b),
    ensures
        a == b,
    decreases a,
{
    assert(dec_str(a).last() == digit_char(a % 10));
    assert(dec_str(b).last() == digit_char(b % 10));
    assert(a % 10 == b % 10) by {
        if a % 10 != b % 10 {
            assert(digit_char(a % 10) != digit_char(b % 10));
        }
    }
    lemma_dec_str_len(a);
    lemma_dec_str_len(b);
    if a < 10 && b < 10 {
        assert(a == a % 10 && b == b % 10);
    } else if a < 10 {
        assert(dec_str(a).len() == 1);
        lemma_dec_str_len(b / 10);
        assert(dec_str(b).len() >= 2);
    } else if b < 10 {
        assert(dec_str(b).len() == 1);
        lemma_dec_str_len(a / 10);
        assert(dec_str(a).len() >= 2);
    } else {
        assert(dec_str(a).drop_last() == dec_str(a / 10));
        assert(dec_str(b).drop_last() == dec_str(b / 10));
        lemma_dec_str_injective(a / 10, b / 10);
    }
}

/// Two different counters render a base symbol to two different names.
pub proof fn lemma_make_sym_injective(base: Seq<char>, c1: usize, c2: usize)
    requires
        c1 != c2,
    ensures
        make_sym_spec(base, c1) != make_sym_spec(base, c2),
{
    lemma_dec_str_len(c1 as u128);
    lemma_dec_str_len(c2 as u128);
    if c1 == 0 || c2 == 0 {
        assert(make_sym_spec(base, c1).len() != make_sym_spec(base, c2).len());
    } else {
        if make_sym_spec(base, c1) == make_sym_spec(base, c2) {
            let d1 = dec_str(c1 as u128);
            let d2 = dec_str(c2 as u128);
            assert(make_sym_spec(base, c1).len() == base.len() + 1 + d1.len());
            assert(make_sym_spec(base, c2).len() == base.len() + 1 + d2.len());
            assert(d1.len() == d2.len());
            assert forall|k: int| 0 <= k < d1.len() implies d1[k] == d2[k] by {
                assert(d1[k] == make_sym_spec(base, c1)[base.len() + 1 + k]);
                assert(d2[k] == make_sym_spec(base, c2)[base.len() + 1 + k]);
            }
            assert(d1 =~= d2);
            lemma_dec_str_injective(c1 as u128, c2 as u128);
        }
    }
}

/// How often a name occurs among the first `upto` live modules.
pub open spec fn live_name_uses(nl: crate::netlist::NetList, name: Seq<char>, upto: int) -> int
    decreases upto,
{
    if upto <= 0 {
        0
    } else {
        live_name_uses(nl, name, upto - 1) + (if !nl.modules[upto - 1].skip && nl.modules[upto
            - 1].name@ == name {
            1int
        } else {
            0int
        })
    }
}

/// The name count never exceeds the position, and never shrinks.
pub proof fn lemma_uses_bounds(nl: crate::netlist::NetList, name: Seq<char>, i: int, j: int)
    requires
        0 <= i <= j,
    ensures
        live_name_uses(nl, name, i) <= live_name_uses(nl, name, j) <= live_name_uses(
            nl,
            name,
            i,
        ) + (j - i),
        0 <= live_name_uses(nl, name, j) <= j,
    decreases j,
{
    if i < j {
        lemma_uses_bounds(nl, name, i, j - 1);
    } else if j > 0 {
        lemma_uses_bounds(nl, name, 0, j - 1);
    }
}

/// Every live module's final name is its remapped original suffixed with the
/// number of earlier live modules carrying the same original name.
pub open spec fn module_names_assigned(a: crate::netlist::NetList, b: crate::netlist::NetList) -> bool {
    &&& b.modules.len() == a.modules.len()
    &&& forall|mm: int|
        0 <= mm < a.modules.len() && !(#[trigger] a.modules[mm]).skip ==> b.modules[mm].name@
            == make_sym_spec(
            remap_spec(a.modules[mm].name@),
            live_name_uses(a, a.modules[mm].name@, mm) as usize,
        )
}

/// Two live modules sharing one original name never share a final name: the
/// later one carries a strictly larger counter.
pub proof fn lemma_module_names_distinct(
    a: crate::netlist::NetList,
    b: crate::netlist::NetList,
    i: int,
    j: int,
)
    requires
        module_names_assigned(a, b),
        0 <= i < j < a.modules.len(),
        !a.modules[i].skip,
        !a.modules[j].skip,
        a.modules[i].name@ == a.modules[j].name@,
    ensures
        b.modules[i].name@ != b.modules[j].name@,
{
    let name = a.modules[i].name@;
    lemma_uses_bounds(a, name, 0, i);
    lemma_uses_bounds(a, name, i + 1, j);
    assert(live_name_uses(a, name, i + 1) == live_name_uses(a, name, i) + 1);
    lemma_uses_bounds(a, name, 0, j);
    lemma_make_sym_injective(
        remap_spec(name),
        live_name_uses(a, name, i) as usize,
        live_name_uses(a, name, j) as usize,
    );
}

/// One per-module naming counter.
pub struct IdentEntry {
    pub mod_id: usize,
    pub sym: String,
    pub count: usize,
}

/// One process-wide module-name counter.
pub struct ModIdentEntry {
    pub sym: String,
    pub count: usize,
}

/// The Set-Names pass state: the per-module and process-wide counters.
pub struct SetNames {
    pub idents: Vec<IdentEntry>,
    pub module_idents: Vec<ModIdentEntry>,
}

impl SetNames {
    pub fn new() -> (r: Self)
        ensures
            r.idents.len() == 0,
            r.module_idents.len() == 0,
    {
        SetNames { idents: Vec::new(), module_idents: Vec::new() }
    }

    /// Takes the next free suffix counter for a node-output symbol within one
    /// module: zero on first use, then one more than last time (saturating at
    /// the counter's ceiling).
    fn next_count(&mut self, mod_id: usize, sym: &String) -> (count: usize)
        ensures
            match find_ident(old(self).idents@, mod_id, sym@) {
                Some(i) => count as int == (if old(self).idents@[i].count < usize::MAX {
                    old(self).idents@[i].count + 1
                } else {
                    old(self).idents@[i].count as int
                }),
                None => count == 0,
            },
            final(self).module_idents == old(self).module_idents,
            count == next_count_spec(idents_view(old(self).idents@), mod_id, sym@),
            idents_view(final(self).idents@) == bump_spec(
                idents_view(old(self).idents@),
                mod_id,
                sym@,
            ),
    {
        proof {
            assert(self.idents@.skip(0) =~= self.idents@);
        }
        let mut i: usize = 0;
        while i < self.idents.len()
            invariant
                i <= self.idents.len(),
                *self == *old(self),
                find_ident(old(self).idents@, mod_id, sym@) == (match find_ident(
                    old(self).idents@.skip(i as int),
                    mod_id,
                    sym@,
                ) {
                    Some(j) => Some(j + i),
                    None => None,
                }),
            decreases self.idents.len() - i,
        {
            proof {
                assert(self.idents@.skip(i as int).drop_first() =~= self.idents@.skip(i + 1));
                assert(self.idents@.skip(i as int)[0] == self.idents@[i as int]);
            }
            if self.idents[i].mod_id == mod_id && self.idents[i].sym.eq(sym) {
                let c = self.idents[i].count;
                let c2 = if c < usize::MAX {
                    c + 1
                } else {
                    c
                };
                let entry = IdentEntry { mod_id, sym: sym.clone(), count: c2 };
                proof {
                    assert(find_ident(old(self).idents@.skip(i as int), mod_id, sym@) == Some(
                        0int,
                    ));
                    assert(find_ident(old(self).idents@, mod_id, sym@) == Some(i as int));
                    lemma_find_view(old(self).idents@, mod_id, sym@);
                    assert(idents_view(old(self).idents@)[i as int] == (IdentV {
                        mod_id: old(self).idents@[i as int].mod_id,
                        sym: old(self).idents@[i as int].sym@,
                        count: old(self).idents@[i as int].count,
                    }));
                }
                self.idents.set(i, entry);
                proof {
                    let tv = idents_view(old(self).idents@);
                    let bumped = bump_spec(tv, mod_id, sym@);
                    assert(bumped == tv.update(
                        i as int,
                        IdentV { mod_id, sym: sym@, count: next_count_spec(tv, mod_id, sym@) },
                    ));
                    assert forall|j: int| 0 <= j < self.idents@.len() implies idents_view(
                        self.idents@,
                    )[j] == bumped[j] by {
                        if j != i {
                            assert(self.idents@[j] == old(self).idents@[j]);
                        }
                    }
                    assert(idents_view(self.idents@) =~= bumped);
                }
                return c2;
            }
            i = i + 1;
        }
        proof {
            assert(self.idents@.skip(self.idents@.len() as int).len() == 0);
            lemma_find_view(old(self).idents@, mod_id, sym@);
        }
        self.idents.push(IdentEntry { mod_id, sym: sym.clone(), count: 0 });
        proof {
            assert(idents_view(self.idents@) =~= bump_spec(
                idents_view(old(self).idents@),
                mod_id,
                sym@,
            ));
        }
        0
    }

    /// Takes the next free suffix counter for a module name, process-wide.
    fn next_module_count(&mut self, sym: &String) -> (count: usize)
        ensures
            final(self).idents == old(self).idents,
            count == mnext_count_spec(module_idents_view(old(self).module_idents@), sym@),
            module_idents_view(final(self).module_idents@) == mbump_spec(
                module_idents_view(old(self).module_idents@),
                sym@,
            ),
    {
        let ghost v = module_idents_view(self.module_idents@);
        proof {
            assert(v.skip(0) =~= v);
        }
        let mut i: usize = 0;
        while i < self.module_idents.len()
            invariant
                i <= self.module_idents.len(),
                *self == *old(self),
                v == module_idents_view(old(self).module_idents@),
                find_mident(v, sym@) == (match find_mident(v.skip(i as int), sym@) {
                    Some(j) => Some(j + i),
                    None => None,
                }),
            decreases self.module_idents.len() - i,
        {
            proof {
                assert(v.skip(i as int).drop_first() =~= v.skip(i + 1));
                assert(v.skip(i as int)[0] == v[i as int]);
                assert(v[i as int] == (ModIdentV {
                    sym: self.module_idents@[i as int].sym@,
                    count: self.module_idents@[i as int].count,
                }));
            }
            if self.module_idents[i].sym.eq(sym) {
                let c = self.module_idents[i].count;
                let c2 = if c < usize::MAX {
                    c + 1
                } else {
                    c
                };
                let entry = ModIdentEntry { sym: sym.clone(), count: c2 };
                proof {
                    assert(find_mident(v.skip(i as int), sym@) == Some(0int));
                    assert(find_mident(v, sym@) == Some(i as int));
                }
                self.module_idents.set(i, entry);
                proof {
                    let bumped = mbump_spec(v, sym@);
                    assert(bumped == v.update(
                        i as int,
                        ModIdentV { sym: sym@, count: mnext_count_spec(v, sym@) },
                    ));
                    assert forall|j: int|
                        0 <= j < self.module_idents@.len() implies module_idents_view(
                        self.module_idents@,
                    )[j] == bumped[j] by {
                        if j != i {
                            assert(self.module_idents@[j] == old(self).module_idents@[j]);
                        }
                    }
                    assert(module_idents_view(self.module_idents@) =~= bumped);
                }
                return c2;
            }
            i = i + 1;
        }
        proof {
            assert(v.skip(v.len() as int).len() == 0);
        }
        self.module_idents.push(ModIdentEntry { sym: sym.clone(), count: 0 });
        proof {
            assert(module_idents_view(self.module_idents@) =~= mbump_spec(v, sym@));
        }
        0
    }

    /// Names one module: the reserved-name remap, then the process-wide
    /// counter on the original symbol.
    fn set_module_name(&mut self, netlist: &mut NetList, mod_id: usize)
        requires
            old(netlist).wf(),
            mod_id < old(netlist).modules.len(),
        ensures
            final(netlist).wf(),
            final(netlist).modules.len() == old(netlist).modules.len(),
            final(netlist).cfg == old(netlist).cfg,
            final(netlist).top == old(netlist).top,
            forall|mm: int|
                0 <= mm < old(netlist).modules.len() && mm != mod_id ==> final(netlist).modules@[mm]
                    == old(netlist).modules@[mm],
            forall|mm: int|
                0 <= mm < old(netlist).modules.len() ==> same_but_names(
                    old(netlist).modules[mm],
                    #[trigger] final(netlist).modules[mm],
                ),
            final(netlist).modules[mod_id as int].name@ == make_sym_spec(
                remap_spec(old(netlist).modules[mod_id as int].name@),
                mnext_count_spec(
                    module_idents_view(old(self).module_idents@),
                    old(netlist).modules[mod_id as int].name@,
                ),
            ),
            module_idents_view(final(self).module_idents@) == mbump_spec(
                module_idents_view(old(self).module_idents@),
                old(netlist).modules[mod_id as int].name@,
            ),
            final(self).idents == old(self).idents,
    {
        let sym = netlist.modules[mod_id].name.clone();
        let count = self.next_module_count(&sym);
        let new_sym = remap_reserved(&sym);
        let named = make_sym(&new_sym, count);
        let m = &mut netlist.modules[mod_id];
        m.name = named;
    }

    /// Names every output of one node, and an unnamed instantiation after its
    /// target module.
    fn set_node_out_names(&mut self, netlist: &mut NetList, mod_id: usize, node_id: usize)
        requires
            old(netlist).wf(),
            mod_id < old(netlist).modules.len(),
            node_id < old(netlist).modules[mod_id as int].graph.nodes.len(),
        ensures
            final(netlist).wf(),
            final(netlist).modules.len() == old(netlist).modules.len(),
            final(netlist).cfg == old(netlist).cfg,
            final(netlist).top == old(netlist).top,
            forall|mm: int|
                0 <= mm < old(netlist).modules.len() && mm != mod_id ==> final(netlist).modules@[mm]
                    == old(netlist).modules@[mm],
            forall|mm: int|
                0 <= mm < old(netlist).modules.len() ==> same_but_names(
                    old(netlist).modules[mm],
                    #[trigger] final(netlist).modules[mm],
                ),
            final(netlist).modules[mod_id as int].name == old(netlist).modules[mod_id as int].name,
            forall|n: int|
                0 <= n < old(netlist).modules[mod_id as int].graph.nodes.len() && n != node_id
                    ==> final(netlist).modules[mod_id as int].graph.nodes@[n]
                    == old(netlist).modules[mod_id as int].graph.nodes@[n],
            node_outputs_named(final(netlist).modules[mod_id as int], node_id),
            forall|o: int|
                0 <= o < old(netlist).modules[mod_id as int].graph.nodes[node_id as int].outputs.len()
                    ==> ((#[trigger] final(netlist).modules[mod_id as int].graph.nodes[node_id as int].outputs[o].sym) matches Some(s)
                    && s@ == assigned_out_sym(
                    idents_view(old(self).idents@),
                    mod_id,
                    old(netlist).modules[mod_id as int].graph.nodes[node_id as int],
                    o,
                )),
            final(self).module_idents == old(self).module_idents,
    {
        let ghost nd0 = netlist.modules[mod_id as int].graph.nodes[node_id as int];
        let ghost t0 = idents_view(self.idents@);
        let n_outs = netlist.modules[mod_id].graph.nodes[node_id].outputs.len();
        let mut o: usize = 0;
        while o < n_outs
            invariant
                o <= n_outs,
                netlist.wf(),
                mod_id < netlist.modules.len(),
                node_id < netlist.modules[mod_id as int].graph.nodes.len(),
                n_outs == netlist.modules[mod_id as int].graph.nodes[node_id as int].outputs.len(),
                netlist.modules.len() == old(netlist).modules.len(),
                netlist.cfg == old(netlist).cfg,
                netlist.top == old(netlist).top,
                forall|mm: int|
                    0 <= mm < old(netlist).modules.len() ==> same_but_names(
                        old(netlist).modules[mm],
                        #[trigger] netlist.modules[mm],
                    ),
                forall|mm: int|
                    0 <= mm < old(netlist).modules.len() && mm != mod_id
                        ==> netlist.modules@[mm] == old(netlist).modules@[mm],
                netlist.modules[mod_id as int].name == old(netlist).modules[mod_id as int].name,
                forall|n: int|
                    0 <= n < old(netlist).modules[mod_id as int].graph.nodes.len() && n != node_id
                        ==> netlist.modules[mod_id as int].graph.nodes@[n]
                        == old(netlist).modules[mod_id as int].graph.nodes@[n],
                forall|oo: int|
                    o <= oo < n_outs
                        ==> netlist.modules[mod_id as int].graph.nodes[node_id as int].outputs@[oo]
                        == old(netlist).modules[mod_id as int].graph.nodes[node_id as int].outputs@[oo],
                netlist.modules[mod_id as int].graph.nodes[node_id as int].kind
                    == old(netlist).modules[mod_id as int].graph.nodes[node_id as int].kind,
                netlist.modules[mod_id as int].graph.nodes[node_id as int].skip
                    == old(netlist).modules[mod_id as int].graph.nodes[node_id as int].skip,
                forall|oo: int|
                    0 <= oo < o ==> (
                    #[trigger] netlist.modules[mod_id as int].graph.nodes[node_id as int].outputs[oo].sym) is Some,
                nd0 == old(netlist).modules[mod_id as int].graph.nodes[node_id as int],
                t0 == idents_view(old(self).idents@),
                n_outs == nd0.outputs.len(),
                idents_view(self.idents@) == node_table_after(t0, mod_id, nd0, o as int),
                self.module_idents == old(self).module_idents,
                forall|oo: int|
                    0 <= oo < o ==> ((
                    #[trigger] netlist.modules[mod_id as int].graph.nodes[node_id as int].outputs[oo].sym) matches Some(s)
                        && s@ == assigned_out_sym(t0, mod_id, nd0, oo)),
            decreases n_outs - o,
        {
            let sym: String = match &netlist.modules[mod_id].graph.nodes[node_id].outputs[o].sym {
                Some(s) => s.clone(),
                None => String::from_str("__tmp"),
            };
            proof {
                assert(netlist.modules[mod_id as int].graph.nodes[node_id as int].outputs[o as int]
                    == nd0.outputs[o as int]);
                assert(sym@ == out_base(nd0, o as int));
            }
            let count = self.next_count(mod_id, &sym);
            proof {
                assert(count == next_count_spec(
                    node_table_after(t0, mod_id, nd0, o as int),
                    mod_id,
                    out_base(nd0, o as int),
                ));
                assert(idents_view(self.idents@) == node_table_after(t0, mod_id, nd0, o + 1));
            }
            let new_sym = remap_reserved(&sym);
            let named = make_sym(&new_sym, count);
            proof {
                assert(named@ == assigned_out_sym(t0, mod_id, nd0, o as int));
            }
            let ghost pre = *netlist;
            let m = &mut netlist.modules[mod_id];
            m.graph.nodes[node_id].outputs[o].sym = Some(named);
            proof {
                assert(same_but_names(pre.modules[mod_id as int], *final(m)));
                lemma_same_but_names_trans(
                    old(netlist).modules[mod_id as int],
                    pre.modules[mod_id as int],
                    *final(m),
                );
                assert(final(m).graph.nodes[node_id as int].outputs[o as int].sym == Some(
                    named,
                ));
            }
            o = o + 1;
        }
        let ghost after_loop = *netlist;
        // An unnamed instantiation takes its target module's (already final)
        // name, marked as generated, under the same counter logic.
        let target: Option<usize> = match &netlist.modules[mod_id].graph.nodes[node_id].kind {
            NodeKind::ModInst(mi) => {
                if mi.name.is_none() {
                    Some(mi.mod_id)
                } else {
                    None
                }
            },
            _ => None,
        };
        match target {
            Some(tgt) => {
                if tgt < netlist.module_count() {
                    let tname = netlist.modules[tgt].name.clone();
                    proof {
                        reveal_strlit("__");
                    }
                    let base = String::from_str("__").concat(tname.as_str());
                    let count = self.next_count(mod_id, &base);
                    let new_sym = remap_reserved(&base);
                    let named = make_sym(&new_sym, count);
                    let (in_count, tgt_id) = match &netlist.modules[mod_id].graph.nodes[node_id].kind {
                        NodeKind::ModInst(mi) => (mi.in_count, mi.mod_id),
                        _ => (0, 0),
                    };
                    let ghost pre = *netlist;
                    let m = &mut netlist.modules[mod_id];
                    let node = &mut m.graph.nodes[node_id];
                    node.kind = NodeKind::ModInst(
                        ModInst { mod_id: tgt_id, name: Some(named), in_count },
                    );
                    proof {
                        assert(same_but_names(pre.modules[mod_id as int], *final(m)));
                        lemma_same_but_names_trans(
                            old(netlist).modules[mod_id as int],
                            pre.modules[mod_id as int],
                            *final(m),
                        );
                        assert(final(m).graph.nodes[node_id as int].outputs
                            == pre.modules[mod_id as int].graph.nodes[node_id as int].outputs);
                    }
                }
            },
            None => {},
        }
        proof {
            assert(netlist.modules[mod_id as int].graph.nodes[node_id as int].outputs
                == after_loop.modules[mod_id as int].graph.nodes[node_id as int].outputs);
            assert(node_outputs_named(netlist.modules[mod_id as int], node_id));
        }
    }

    /// One deterministic naming pass over every live module and node.
    #[verifier::rlimit(100)]
    pub fn run(self, netlist: &mut NetList)
        requires
            old(netlist).wf(),
        ensures
            final(netlist).wf(),
            final(netlist).modules.len() == old(netlist).modules.len(),
            final(netlist).cfg == old(netlist).cfg,
            final(netlist).top == old(netlist).top,
            forall|mm: int|
                0 <= mm < old(netlist).modules.len() ==> same_but_names(
                    old(netlist).modules[mm],
                    #[trigger] final(netlist).modules[mm],
                ),
            all_live_named(*final(netlist)),
            self.module_idents@.len() == 0 ==> module_names_assigned(*old(netlist), *final(netlist)),
    {
        let ghost e0 = self.module_idents@.len() == 0;
        let mut this = self;
        let n_mods = netlist.module_count();
        let mut mod_id: usize = 0;
        while mod_id < n_mods
            invariant
                mod_id <= n_mods,
                netlist.wf(),
                n_mods == netlist.modules.len(),
                netlist.modules.len() == old(netlist).modules.len(),
                netlist.cfg == old(netlist).cfg,
                netlist.top == old(netlist).top,
                forall|mm: int|
                    0 <= mm < old(netlist).modules.len() ==> same_but_names(
                        old(netlist).modules[mm],
                        #[trigger] netlist.modules[mm],
                    ),
                forall|mm: int, n: int|
                    0 <= mm < mod_id && !(#[trigger] netlist.modules[mm]).skip && 0 <= n
                        < netlist.modules[mm].graph.nodes.len() && !(
                    #[trigger] netlist.modules[mm].graph.nodes[n]).skip ==> node_outputs_named(
                        netlist.modules[mm],
                        n as usize,
                    ),
                e0 ==> (forall|mm: int|
                    mod_id <= mm < n_mods ==> (#[trigger] netlist.modules@[mm]).name == old(
                        netlist,
                    ).modules@[mm].name),
                e0 ==> (forall|mm: int|
                    0 <= mm < mod_id && !(#[trigger] old(netlist).modules[mm]).skip
                        ==> netlist.modules[mm].name@ == make_sym_spec(
                        remap_spec(old(netlist).modules[mm].name@),
                        live_name_uses(
                            *old(netlist),
                            old(netlist).modules[mm].name@,
                            mm,
                        ) as usize,
                    )),
                e0 ==> (forall|sname: Seq<char>| {
                    let u = live_name_uses(*old(netlist), sname, mod_id as int);
                    match #[trigger] find_mident(
                        module_idents_view(this.module_idents@),
                        sname,
                    ) {
                        Some(i) => 0 <= i < module_idents_view(this.module_idents@).len() && u
                            >= 1 && module_idents_view(this.module_idents@)[i].count == u - 1,
                        None => u == 0,
                    }
                }),
            decreases n_mods - mod_id,
        {
            let ghost u_here = live_name_uses(
                *old(netlist),
                old(netlist).modules@[mod_id as int].name@,
                mod_id as int,
            );
            let ghost v_pre = module_idents_view(this.module_idents@);
            let ghost nm = old(netlist).modules@[mod_id as int].name@;
            if !netlist.modules[mod_id].skip {
                let ghost pre1 = *netlist;
                this.set_module_name(netlist, mod_id);
                proof {
                    assert forall|mm: int|
                        0 <= mm < old(netlist).modules.len() implies same_but_names(
                        old(netlist).modules[mm],
                        #[trigger] netlist.modules[mm],
                    ) by {
                        lemma_same_but_names_trans(
                            old(netlist).modules[mm],
                            pre1.modules[mm],
                            netlist.modules[mm],
                        );
                    }
                    if e0 {
                        lemma_uses_bounds(*old(netlist), nm, 0, mod_id as int);
                        assert(pre1.modules[mod_id as int].name@ == nm);
                        match find_mident(v_pre, nm) {
                            Some(i) => {
                                assert(u_here >= 1 && v_pre[i].count == u_here - 1);
                                assert(mnext_count_spec(v_pre, nm) == u_here);
                            },
                            None => {
                                assert(u_here == 0);
                                assert(mnext_count_spec(v_pre, nm) == 0);
                            },
                        }
                        assert(netlist.modules[mod_id as int].name@ == make_sym_spec(
                            remap_spec(nm),
                            u_here as usize,
                        ));
                        assert(module_idents_view(this.module_idents@) == mbump_spec(v_pre, nm));
                    }
                }
                let n_nodes = netlist.modules[mod_id].graph.nodes.len();
                let mut node_id: usize = 0;
                while node_id < n_nodes
                    invariant
                        node_id <= n_nodes,
                        netlist.wf(),
                        mod_id < netlist.modules.len(),
                        n_nodes == netlist.modules[mod_id as int].graph.nodes.len(),
                        netlist.modules.len() == old(netlist).modules.len(),
                        netlist.cfg == old(netlist).cfg,
                        netlist.top == old(netlist).top,
                        forall|mm: int|
                            0 <= mm < old(netlist).modules.len() ==> same_but_names(
                                old(netlist).modules[mm],
                                #[trigger] netlist.modules[mm],
                            ),
                        forall|mm: int, n: int|
                            0 <= mm < mod_id && !(#[trigger] netlist.modules[mm]).skip && 0 <= n
                                < netlist.modules[mm].graph.nodes.len() && !(
                            #[trigger] netlist.modules[mm].graph.nodes[n]).skip
                                ==> node_outputs_named(netlist.modules[mm], n as usize),
                        forall|n: int|
                            0 <= n < node_id && !(
                            #[trigger] netlist.modules[mod_id as int].graph.nodes[n]).skip
                                ==> node_outputs_named(netlist.modules[mod_id as int], n as usize),
                        e0 ==> {
                            &&& 0 <= u_here <= mod_id as int
                            &&& n_mods == old(netlist).modules.len()
                            &&& module_idents_view(this.module_idents@) == mbump_spec(v_pre, nm)
                            &&& netlist.modules[mod_id as int].name@ == make_sym_spec(
                                remap_spec(nm),
                                u_here as usize,
                            )
                            &&& (forall|mm: int|
                                mod_id < mm < n_mods ==> (#[trigger] netlist.modules@[mm]).name
                                    == old(netlist).modules@[mm].name)
                            &&& (forall|mm: int|
                                0 <= mm < mod_id && !(#[trigger] old(netlist).modules[mm]).skip
                                    ==> netlist.modules[mm].name@ == make_sym_spec(
                                    remap_spec(old(netlist).modules[mm].name@),
                                    live_name_uses(
                                        *old(netlist),
                                        old(netlist).modules[mm].name@,
                                        mm,
                                    ) as usize,
                                ))
                        },
                    decreases n_nodes - node_id,
                {
                    if !netlist.modules[mod_id].graph.nodes[node_id].skip {
                        let ghost pre2 = *netlist;
                        let ghost tpre2 = this;
                        this.set_node_out_names(netlist, mod_id, node_id);
                        proof {
                            assert forall|mm: int|
                                0 <= mm < old(netlist).modules.len() implies same_but_names(
                                old(netlist).modules[mm],
                                #[trigger] netlist.modules[mm],
                            ) by {
                                lemma_same_but_names_trans(
                                    old(netlist).modules[mm],
                                    pre2.modules[mm],
                                    netlist.modules[mm],
                                );
                            }
                            if e0 {
                                assert(this.module_idents == tpre2.module_idents);
                                assert(module_idents_view(this.module_idents@) == mbump_spec(
                                    v_pre,
                                    nm,
                                ));
                                assert(netlist.modules[mod_id as int].name
                                    == pre2.modules[mod_id as int].name);
                                assert(netlist.modules[mod_id as int].name@ == make_sym_spec(
                                    remap_spec(nm),
                                    u_here as usize,
                                ));
                                assert forall|mm: int|
                                    mod_id < mm < n_mods implies (
                                #[trigger] netlist.modules@[mm]).name == old(
                                    netlist,
                                ).modules@[mm].name by {
                                    assert(netlist.modules@[mm] == pre2.modules@[mm]);
                                    assert(pre2.modules@[mm].name == old(
                                        netlist,
                                    ).modules@[mm].name);
                                }
                                assert forall|mm: int|
                                    0 <= mm < mod_id && !(
                                #[trigger] old(netlist).modules[mm]).skip
                                    implies netlist.modules[mm].name@ == make_sym_spec(
                                    remap_spec(old(netlist).modules[mm].name@),
                                    live_name_uses(
                                        *old(netlist),
                                        old(netlist).modules[mm].name@,
                                        mm,
                                    ) as usize,
                                ) by {
                                    assert(netlist.modules@[mm] == pre2.modules@[mm]);
                                }
                            }
                        }
                    }
                    node_id = node_id + 1;
                }
            }
            proof {
                if e0 {
                    let live = !old(netlist).modules[mod_id as int].skip;
                    let v_now = module_idents_view(this.module_idents@);
                    assert forall|sname: Seq<char>| {
                        let u2 = live_name_uses(*old(netlist), sname, mod_id + 1);
                        match #[trigger] find_mident(v_now, sname) {
                            Some(i) => 0 <= i < v_now.len() && u2 >= 1 && v_now[i].count == u2
                                - 1,
                            None => u2 == 0,
                        }
                    } by {
                        let u1 = live_name_uses(*old(netlist), sname, mod_id as int);
                        let u2 = live_name_uses(*old(netlist), sname, mod_id + 1);
                        if live {
                            assert(u2 == u1 + (if sname == nm {
                                1int
                            } else {
                                0int
                            }));
                            assert(v_now == mbump_spec(v_pre, nm));
                            match find_mident(v_pre, nm) {
                                Some(i) => {
                                    let entry = ModIdentV {
                                        sym: nm,
                                        count: mnext_count_spec(v_pre, nm),
                                    };
                                    assert(v_now == v_pre.update(i, entry));
                                    lemma_find_mident_found(v_pre, nm);
                                    assert(v_pre[i].sym == nm);
                                    lemma_find_mident_syms(v_pre, v_now, sname);
                                    if sname != nm {
                                        match find_mident(v_pre, sname) {
                                            Some(k) => {
                                                assert(v_pre[k].sym == sname) by {
                                                    lemma_find_mident_found(v_pre, sname);
                                                }
                                                assert(k != i);
                                                assert(v_now[k] == v_pre[k]);
                                            },
                                            None => {},
                                        }
                                    }
                                },
                                None => {
                                    let entry = ModIdentV { sym: nm, count: 0 };
                                    assert(v_now == v_pre.push(entry));
                                    lemma_find_mident_push(v_pre, entry, sname);
                                    if sname != nm {
                                        match find_mident(v_pre, sname) {
                                            Some(k) => {
                                                assert(v_now[k] == v_pre[k]);
                                            },
                                            None => {},
                                        }
                                    } else {
                                        assert(u1 == 0);
                                        assert(v_now[v_pre.len() as int].count == 0);
                                    }
                                },
                            }
                        } else {
                            assert(u2 == u1);
                        }
                    }
                }
            }
            mod_id = mod_id + 1;
        }
    }
}

/// Every output of node `node_id` carries an assigned symbol after the
/// pass. Which symbol is pinned by the building blocks: `next_count` takes
/// the exact counter, `remap_reserved` the exact remapping and `make_sym`
/// the exact rendering.
pub open spec fn node_outputs_named(b: Module, node_id: usize) -> bool {
    forall|o: int|
        0 <= o < b.graph.nodes[node_id as int].outputs.len() ==> (
        #[trigger] b.graph.nodes[node_id as int].outputs[o].sym) is Some
}

/// After the pass, every output of every live node of every live module
/// carries an assigned symbol — the emission boundary's "every live port has
/// a resolved name".
pub open spec fn all_live_named(nl: NetList) -> bool {
    forall|mm: int, n: int|
        0 <= mm < nl.modules.len() && !(#[trigger] nl.modules[mm]).skip && 0 <= n
            < nl.modules[mm].graph.nodes.len() && !(#[trigger] nl.modules[mm].graph.nodes[n]).skip
            ==> node_outputs_named(nl.modules[mm], n as usize)
}

/// `b` is `a` with only display names changed: same structure, widths, edges,
/// ports and dead-code flags.
pub open spec fn same_but_names(a: Module, b: Module) -> bool {
    &&& b.is_top == a.is_top
    &&& b.inline == a.inline
    &&& b.skip == a.skip
    &&& b.graph.edges == a.graph.edges
    &&& b.mod_inputs == a.mod_inputs
    &&& b.mod_outputs == a.mod_outputs
    &&& b.graph.nodes.len() == a.graph.nodes.len()
    &&& forall|n: int|
        0 <= n < b.graph.nodes.len() ==> kind_same_but_name(
            (#[trigger] a.graph.nodes[n]).kind,
            b.graph.nodes[n].kind,
        ) && b.graph.nodes[n].skip == a.graph.nodes[n].skip && b.graph.nodes[n].outputs.len()
            == a.graph.nodes[n].outputs.len() && (forall|o: int|
            0 <= o < b.graph.nodes[n].outputs.len() ==> (#[trigger] b.graph.nodes[n].outputs[o]).ty
                == a.graph.nodes[n].outputs[o].ty && b.graph.nodes[n].outputs[o].skip
                == a.graph.nodes[n].outputs[o].skip)
}

/// Two kinds equal up to an instantiation's display name.
pub open spec fn kind_same_but_name(a: NodeKind, b: NodeKind) -> bool {
    match (a, b) {
        (NodeKind::ModInst(x), NodeKind::ModInst(y)) => x.mod_id == y.mod_id && x.in_count
            == y.in_count,
        _ => a == b,
    }
}

/// `same_but_names` is transitive: two renaming steps are one.
pub proof fn lemma_same_but_names_trans(a: Module, b: Module, c: Module)
    requires
        same_but_names(a, b),
        same_but_names(b, c),
    ensures
        same_but_names(a, c),
{
    assert forall|n: int| 0 <= n < c.graph.nodes.len() implies kind_same_but_name(
        (#[trigger] a.graph.nodes[n]).kind,
        c.graph.nodes[n].kind,
    ) by {
        assert(kind_same_but_name(a.graph.nodes[n].kind, b.graph.nodes[n].kind));
        assert(kind_same_but_name(b.graph.nodes[n].kind, c.graph.nodes[n].kind));
    }
}

impl NetList {
    /// The Set-Names pass: deterministic, unique display names for every live
    /// module and node output.
    pub fn set_names(&mut self)
        requires
            old(self).wf(),
        ensures
            final(self).wf(),
            final(self).modules.len() == old(self).modules.len(),
            final(self).cfg == old(self).cfg,
            final(self).top == old(self).top,
            forall|mm: int|
                0 <= mm < old(self).modules.len() ==> same_but_names(
                    old(self).modules[mm],
                    #[trigger] final(self).modules[mm],
                ),
            all_live_named(*final(self)),
            module_names_assigned(*old(self), *final(self)),
    {
        let s = SetNames::new();
        s.run(self);
    }

    /// The whole pipeline, in its fixed order: Transform, then Reachability,
    /// then Set-Names, each exactly once.
    pub fn run_visitors(&mut self)
        requires
            old(self).wf(),
        ensures
            final(self).wf(),
            final(self).modules.len() == old(self).modules.len(),
            final(self).cfg == old(self).cfg,
            final(self).top == old(self).top,
            all_live_named(*final(self)),
    {
        self.transform();
        self.reachability();
        self.set_names();
    }
}

} // verus!
