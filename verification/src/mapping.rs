//! Mapping tables of a configuration.
//!
//! Beside its list of shortcut entries a configuration may hold tables
//! that map an executable to one property: a name, a working directory and
//! so on. Merging brings both into one list with one entry for each
//! executable, in the order of their paths.

use crate::config::{copy_optional, Lnk};
use crate::text::{
    chars_of, lemma_text_less_asymmetric, lemma_text_less_irreflexive, lemma_text_less_total,
    lemma_text_less_transitive, less_text, same, text_less,
};
use vstd::prelude::*;

verus! {

/// One line of a mapping table: an executable and the value of a property.
#[derive(Clone, Debug)]
pub struct Mapping {
    pub exec_path: String,
    pub value: Option<String>,
}

/// The properties that a mapping table can set.
#[derive(Clone, Copy, Debug, PartialEq, Eq, Structural)]
pub enum LnkField {
    Name,
    WorkDir,
    Args,
    Icon,
    Dest,
    WindowState,
    Comment,
}

/// The mapping tables of a configuration.
#[derive(Debug)]
pub struct MappingTables {
    pub name: Vec<Mapping>,
    pub work_dir: Vec<Mapping>,
    pub args: Vec<Mapping>,
    pub icon: Vec<Mapping>,
    pub dest: Vec<Mapping>,
    pub window_state: Vec<Mapping>,
    pub comment: Vec<Mapping>,
}

/// The entry `l` with the property `field` set to `value`.
pub open spec fn with_field(l: Lnk, field: LnkField, value: Option<String>) -> Lnk {
    match field {
        LnkField::Name => Lnk { name: value, ..l },
        LnkField::WorkDir => Lnk { work_dir: value, ..l },
        LnkField::Args => Lnk { args: value, ..l },
        LnkField::Icon => Lnk { icon: value, ..l },
        LnkField::Dest => Lnk { dest: value, ..l },
        LnkField::WindowState => Lnk { window_state: value, ..l },
        LnkField::Comment => Lnk { comment: value, ..l },
    }
}

/// The entry for `exec_path` with nothing else set.
pub open spec fn blank(exec_path: String) -> Lnk {
    Lnk {
        exec_path,
        name: None,
        icon: None,
        args: None,
        dest: None,
        work_dir: None,
        window_state: None,
        comment: None,
        hotkey: None,
    }
}

/// The entries by the text of their executable after the first `n` of
/// `items` were put in, a later one replacing an earlier one for the same
/// executable.
pub open spec fn put_all(m: Map<Seq<char>, Lnk>, items: Seq<Lnk>, n: int) -> Map<Seq<char>, Lnk>
    decreases n,
{
    if n <= 0 || n > items.len() {
        m
    } else {
        put_all(m, items, n - 1).insert(items[n - 1].exec_path@, items[n - 1])
    }
}

/// The entries after one line of a table was applied: the entry of the
/// executable, or a blank one if it has none, gets the property.
pub open spec fn apply_line(m: Map<Seq<char>, Lnk>, line: Mapping, field: LnkField) -> Map<
    Seq<char>,
    Lnk,
> {
    let key = line.exec_path@;
    let base = if m.dom().contains(key) {
        m[key]
    } else {
        blank(line.exec_path)
    };
    m.insert(key, with_field(base, field, line.value))
}

/// The entries after the first `n` lines of a table were applied.
pub open spec fn apply_table(
    m: Map<Seq<char>, Lnk>,
    table: Seq<Mapping>,
    field: LnkField,
    n: int,
) -> Map<Seq<char>, Lnk>
    decreases n,
{
    if n <= 0 || n > table.len() {
        m
    } else {
        apply_line(apply_table(m, table, field, n - 1), table[n - 1], field)
    }
}

/// The entries of a configuration with the list `shortcut` after all its
/// tables were applied, in the order name, working directory, arguments,
/// icon, destination, window state, comment.
pub open spec fn merged(shortcut: Seq<Lnk>, t: MappingTables) -> Map<Seq<char>, Lnk> {
    let m0 = put_all(Map::empty(), shortcut, shortcut.len() as int);
    let m1 = apply_table(m0, t.name@, LnkField::Name, t.name@.len() as int);
    let m2 = apply_table(m1, t.work_dir@, LnkField::WorkDir, t.work_dir@.len() as int);
    let m3 = apply_table(m2, t.args@, LnkField::Args, t.args@.len() as int);
    let m4 = apply_table(m3, t.icon@, LnkField::Icon, t.icon@.len() as int);
    let m5 = apply_table(m4, t.dest@, LnkField::Dest, t.dest@.len() as int);
    let m6 = apply_table(m5, t.window_state@, LnkField::WindowState, t.window_state@.len() as int);
    apply_table(m6, t.comment@, LnkField::Comment, t.comment@.len() as int)
}

/// Whether the tables that make a configuration merge hold a line: those
/// of names, arguments, icons and destinations.
pub open spec fn asks_for_merge(t: MappingTables) -> bool {
    t.name@.len() > 0 || t.args@.len() > 0 || t.icon@.len() > 0 || t.dest@.len() > 0
}

/// Whether the list `v` holds exactly the entries of `m`, in the order of
/// the texts of their executables.
pub open spec fn lists(v: Seq<Lnk>, m: Map<Seq<char>, Lnk>) -> bool {
    &&& forall|i: int, j: int|
        0 <= i < j < v.len() ==> text_less(#[trigger] v[i].exec_path@, #[trigger] v[j].exec_path@)
    &&& forall|i: int|
        0 <= i < v.len() ==> m.dom().contains(#[trigger] v[i].exec_path@) && m[v[i].exec_path@]
            == v[i]
    &&& forall|k: Seq<char>|
        m.dom().contains(k) ==> exists|i: int| 0 <= i < v.len() && #[trigger] v[i].exec_path@ == k
}

/// The list that holds the entries of a map in order is unique.
pub proof fn lemma_lists_unique(a: Seq<Lnk>, b: Seq<Lnk>, m: Map<Seq<char>, Lnk>)
    requires
        lists(a, m),
        lists(b, m),
    ensures
        a == b,
    decreases a.len(),
{
    if a.len() == 0 {
        if b.len() > 0 {
            assert(m.dom().contains(b[0].exec_path@));
            let i = choose|i: int| 0 <= i < a.len() && #[trigger] a[i].exec_path@ == b[0].exec_path@;
        }
        assert(a =~= b);
    } else {
        // The last entry of each is the entry with the greatest key.
        let ka = a.last().exec_path@;
        assert(m.dom().contains(a[a.len() - 1].exec_path@));
        let j = choose|j: int| 0 <= j < b.len() && #[trigger] b[j].exec_path@ == ka;
        let kb = b.last().exec_path@;
        assert(m.dom().contains(b[b.len() - 1].exec_path@));
        let i = choose|i: int| 0 <= i < a.len() && #[trigger] a[i].exec_path@ == kb;
        if j < b.len() - 1 {
            assert(text_less(b[j].exec_path@, b[b.len() - 1].exec_path@));
            if i < a.len() - 1 {
                assert(text_less(a[i].exec_path@, a[a.len() - 1].exec_path@));
                lemma_text_less_asymmetric(ka, kb);
            } else {
                lemma_text_less_irreflexive(ka);
            }
        }
        assert(ka == kb);
        let m2 = m.remove(ka);
        let a2 = a.drop_last();
        let b2 = b.drop_last();
        assert(lists(a2, m2)) by {
            assert forall|x: int| 0 <= x < a2.len() implies m2.dom().contains(
                #[trigger] a2[x].exec_path@,
            ) && m2[a2[x].exec_path@] == a2[x] by {
                assert(a2[x] == a[x]);
                assert(text_less(a[x].exec_path@, a[a.len() - 1].exec_path@));
                lemma_text_less_irreflexive(ka);
            }
            assert forall|k: Seq<char>| m2.dom().contains(k) implies exists|x: int|
                0 <= x < a2.len() && #[trigger] a2[x].exec_path@ == k by {
                let x = choose|x: int| 0 <= x < a.len() && #[trigger] a[x].exec_path@ == k;
                assert(a2[x] == a[x]);
            }
            assert forall|x: int, y: int| 0 <= x < y < a2.len() implies text_less(
                #[trigger] a2[x].exec_path@,
                #[trigger] a2[y].exec_path@,
            ) by {
                assert(a2[x] == a[x] && a2[y] == a[y]);
            }
        }
        assert(lists(b2, m2)) by {
            assert forall|x: int| 0 <= x < b2.len() implies m2.dom().contains(
                #[trigger] b2[x].exec_path@,
            ) && m2[b2[x].exec_path@] == b2[x] by {
                assert(b2[x] == b[x]);
                assert(text_less(b[x].exec_path@, b[b.len() - 1].exec_path@));
                lemma_text_less_irreflexive(kb);
            }
            assert forall|k: Seq<char>| m2.dom().contains(k) implies exists|x: int|
                0 <= x < b2.len() && #[trigger] b2[x].exec_path@ == k by {
                let x = choose|x: int| 0 <= x < b.len() && #[trigger] b[x].exec_path@ == k;
                assert(b2[x] == b[x]);
            }
            assert forall|x: int, y: int| 0 <= x < y < b2.len() implies text_less(
                #[trigger] b2[x].exec_path@,
                #[trigger] b2[y].exec_path@,
            ) by {
                assert(b2[x] == b[x] && b2[y] == b[y]);
            }
        }
        lemma_lists_unique(a2, b2, m2);
        assert(a.last() == b.last());
        assert(a =~= a2.push(a.last()));
        assert(b =~= b2.push(b.last()));
    }
}

/// Where the entry for `key` stands in the ordered list `v`, or where it
/// would have to be put.
fn locate(v: &Vec<Lnk>, key: &[char]) -> (r: (usize, bool))
    ensures
        r.0 <= v.len(),
        forall|i: int| 0 <= i < r.0 ==> text_less(#[trigger] v@[i].exec_path@, key@),
        r.1 ==> r.0 < v.len() && v@[r.0 as int].exec_path@ == key@,
        !r.1 ==> (r.0 == v.len() || text_less(key@, v@[r.0 as int].exec_path@)),
{
    let mut i: usize = 0;
    while i < v.len()
        invariant
            i <= v.len(),
            forall|k: int| 0 <= k < i ==> text_less(#[trigger] v@[k].exec_path@, key@),
        decreases v.len() - i,
    {
        let have = chars_of(v[i].exec_path.as_str());
        if same(have.as_slice(), key) {
            return (i, true);
        }
        if !less_text(have.as_slice(), key) {
            proof {
                lemma_text_less_total(have@, key@);
            }
            return (i, false);
        }
        i += 1;
    }
    (i, false)
}

/// Puts `item` into the ordered list `v`, in place of the entry for the
/// same executable if there is one.
fn put(v: &mut Vec<Lnk>, item: Lnk, Ghost(m): Ghost<Map<Seq<char>, Lnk>>)
    requires
        lists(old(v)@, m),
    ensures
        lists(final(v)@, m.insert(item.exec_path@, item)),
{
    let key = chars_of(item.exec_path.as_str());
    let (p, found) = locate(v, key.as_slice());
    let ghost before = v@;
    let ghost m2 = m.insert(item.exec_path@, item);
    if found {
        v.set(p, item);
        proof {
            assert forall|i: int, j: int| 0 <= i < j < v@.len() implies text_less(
                #[trigger] v@[i].exec_path@,
                #[trigger] v@[j].exec_path@,
            ) by {
                assert(v@[i].exec_path@ == before[i].exec_path@);
                assert(v@[j].exec_path@ == before[j].exec_path@);
            }
            assert forall|i: int| 0 <= i < v@.len() implies m2.dom().contains(
                #[trigger] v@[i].exec_path@,
            ) && m2[v@[i].exec_path@] == v@[i] by {
                if i != p {
                    assert(v@[i] == before[i]);
                    if i < p {
                        assert(text_less(before[i].exec_path@, before[p as int].exec_path@));
                    } else {
                        assert(text_less(before[p as int].exec_path@, before[i].exec_path@));
                    }
                    lemma_text_less_irreflexive(key@);
                }
            }
            assert forall|k: Seq<char>| m2.dom().contains(k) implies exists|i: int|
                0 <= i < v@.len() && #[trigger] v@[i].exec_path@ == k by {
                if k == key@ {
                    assert(v@[p as int].exec_path@ == k);
                } else {
                    let i = choose|i: int|
                        0 <= i < before.len() && #[trigger] before[i].exec_path@ == k;
                    assert(v@[i].exec_path@ == k);
                }
            }
        }
    } else {
        v.insert(p, item);
        proof {
            assert forall|i: int| 0 <= i < v@.len() && i != p implies text_less(
                v@[i].exec_path@,
                key@,
            ) == (i < p) && (i > p ==> text_less(key@, v@[i].exec_path@)) by {
                if i < p {
                    assert(v@[i] == before[i]);
                    lemma_text_less_asymmetric(before[i].exec_path@, key@);
                } else {
                    assert(v@[i] == before[i - 1]);
                    if i - 1 > p {
                        assert(text_less(before[p as int].exec_path@, before[i - 1].exec_path@));
                        lemma_text_less_transitive(
                            key@,
                            before[p as int].exec_path@,
                            before[i - 1].exec_path@,
                        );
                    }
                    lemma_text_less_asymmetric(key@, v@[i].exec_path@);
                }
            }
            assert forall|i: int, j: int| 0 <= i < j < v@.len() implies text_less(
                #[trigger] v@[i].exec_path@,
                #[trigger] v@[j].exec_path@,
            ) by {
                if i == p {
                    assert(text_less(key@, v@[j].exec_path@));
                } else if j == p {
                    assert(text_less(v@[i].exec_path@, key@));
                } else {
                    let bi = if i < p {
                        i
                    } else {
                        i - 1
                    };
                    let bj = if j < p {
                        j
                    } else {
                        j - 1
                    };
                    assert(v@[i] == before[bi]);
                    assert(v@[j] == before[bj]);
                    assert(text_less(before[bi].exec_path@, before[bj].exec_path@));
                }
            }
            assert forall|i: int| 0 <= i < v@.len() implies m2.dom().contains(
                #[trigger] v@[i].exec_path@,
            ) && m2[v@[i].exec_path@] == v@[i] by {
                if i != p {
                    let bi = if i < p {
                        i
                    } else {
                        i - 1
                    };
                    assert(v@[i] == before[bi]);
                    lemma_text_less_irreflexive(key@);
                }
            }
            assert forall|k: Seq<char>| m2.dom().contains(k) implies exists|i: int|
                0 <= i < v@.len() && #[trigger] v@[i].exec_path@ == k by {
                if k == key@ {
                    assert(v@[p as int].exec_path@ == k);
                } else {
                    let i = choose|i: int|
                        0 <= i < before.len() && #[trigger] before[i].exec_path@ == k;
                    let ni = if i < p {
                        i
                    } else {
                        i + 1
                    };
                    assert(v@[ni] == before[i]);
                }
            }
        }
    }
}

/// The entry `l` with the property `field` set to `value`.
fn set_field(l: &Lnk, field: LnkField, value: &Option<String>) -> (r: Lnk)
    ensures
        r == with_field(*l, field, *value),
{
    let mut r = l.duplicate();
    match field {
        LnkField::Name => {
            r.name = copy_optional(value);
        },
        LnkField::WorkDir => {
            r.work_dir = copy_optional(value);
        },
        LnkField::Args => {
            r.args = copy_optional(value);
        },
        LnkField::Icon => {
            r.icon = copy_optional(value);
        },
        LnkField::Dest => {
            r.dest = copy_optional(value);
        },
        LnkField::WindowState => {
            r.window_state = copy_optional(value);
        },
        LnkField::Comment => {
            r.comment = copy_optional(value);
        },
    }
    r
}

/// Applies one line of a table to the ordered list `v`.
fn apply(v: &mut Vec<Lnk>, line: &Mapping, field: LnkField, Ghost(m): Ghost<Map<Seq<char>, Lnk>>)
    requires
        lists(old(v)@, m),
    ensures
        lists(final(v)@, apply_line(m, *line, field)),
{
    let key = chars_of(line.exec_path.as_str());
    let (p, found) = locate(v, key.as_slice());
    let item = if found {
        set_field(&v[p], field, &line.value)
    } else {
        proof {
            if m.dom().contains(key@) {
                let i = choose|i: int| 0 <= i < v@.len() && #[trigger] v@[i].exec_path@ == key@;
                if i < p {
                    lemma_text_less_irreflexive(key@);
                } else {
                    if i > p {
                        assert(text_less(v@[p as int].exec_path@, v@[i].exec_path@));
                        lemma_text_less_asymmetric(key@, v@[p as int].exec_path@);
                    } else {
                        lemma_text_less_irreflexive(key@);
                    }
                }
            }
        }
        let fresh = Lnk::new(line.exec_path.clone());
        set_field(&fresh, field, &line.value)
    };
    put(v, item, Ghost(m));
}

/// Applies a table to the ordered list `v`.
fn apply_all(
    v: &mut Vec<Lnk>,
    table: &Vec<Mapping>,
    field: LnkField,
    Ghost(m): Ghost<Map<Seq<char>, Lnk>>,
)
    requires
        lists(old(v)@, m),
    ensures
        lists(final(v)@, apply_table(m, table@, field, table@.len() as int)),
{
    let mut i: usize = 0;
    while i < table.len()
        invariant
            i <= table.len(),
            lists(v@, apply_table(m, table@, field, i as int)),
        decreases table.len() - i,
    {
        apply(v, &table[i], field, Ghost(apply_table(m, table@, field, i as int)));
        i += 1;
    }
}

/// Merges the mapping tables into the list of shortcut entries.
///
/// If none of the tables of names, arguments, icons and destinations
/// holds a line, the list is returned as it is. Else the result holds one
/// entry for each executable of the list or of a table, in the order of
/// their paths; each property that a table gives replaces what the list
/// says.
pub fn merge_mappings(shortcut: Vec<Lnk>, tables: &MappingTables) -> (r: Vec<Lnk>)
    ensures
        if asks_for_merge(*tables) {
            lists(r@, merged(shortcut@, *tables))
        } else {
            r@ == shortcut@
        },
{
    if tables.name.len() == 0 && tables.args.len() == 0 && tables.icon.len() == 0
        && tables.dest.len() == 0 {
        return shortcut;
    }
    let mut v: Vec<Lnk> = Vec::new();
    let ghost empty = Map::<Seq<char>, Lnk>::empty();
    let mut i: usize = 0;
    while i < shortcut.len()
        invariant
            i <= shortcut.len(),
            lists(v@, put_all(empty, shortcut@, i as int)),
        decreases shortcut.len() - i,
    {
        let item = shortcut[i].duplicate();
        put(&mut v, item, Ghost(put_all(empty, shortcut@, i as int)));
        i += 1;
    }
    let ghost m0 = put_all(empty, shortcut@, shortcut@.len() as int);
    apply_all(&mut v, &tables.name, LnkField::Name, Ghost(m0));
    let ghost m1 = apply_table(m0, tables.name@, LnkField::Name, tables.name@.len() as int);
    apply_all(&mut v, &tables.work_dir, LnkField::WorkDir, Ghost(m1));
    let ghost m2 = apply_table(
        m1,
        tables.work_dir@,
        LnkField::WorkDir,
        tables.work_dir@.len() as int,
    );
    apply_all(&mut v, &tables.args, LnkField::Args, Ghost(m2));
    let ghost m3 = apply_table(m2, tables.args@, LnkField::Args, tables.args@.len() as int);
    apply_all(&mut v, &tables.icon, LnkField::Icon, Ghost(m3));
    let ghost m4 = apply_table(m3, tables.icon@, LnkField::Icon, tables.icon@.len() as int);
    apply_all(&mut v, &tables.dest, LnkField::Dest, Ghost(m4));
    let ghost m5 = apply_table(m4, tables.dest@, LnkField::Dest, tables.dest@.len() as int);
    apply_all(&mut v, &tables.window_state, LnkField::WindowState, Ghost(m5));
    let ghost m6 = apply_table(
        m5,
        tables.window_state@,
        LnkField::WindowState,
        tables.window_state@.len() as int,
    );
    apply_all(&mut v, &tables.comment, LnkField::Comment, Ghost(m6));
    v
}

} // verus!
