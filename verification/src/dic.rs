//! Operation dictionary: metadata entries for the language's operations
//! (aliases, legacy tokens, buckets, docs) and their validation against the
//! IR's operation names.

use vstd::prelude::*;
use crate::csv_table::strings_view;
use crate::text::{concat3, str_eq};
use crate::dic_view::ResolveStatus;
use crate::ir::{ir_name_list, ir_name_set};
use crate::builtins::{builtin_names, is_registered_builtin};

verus! {

/// One entry of the operation dictionary.
#[derive(Debug, Clone)]
pub struct OpMapEntry {
    pub ir: Option<String>,
    pub aliases: Vec<String>,
    pub legacy_tokens: Vec<String>,
    pub bucket: String,
    pub semantics: String,
    pub docs: String,
    pub notes: String,
}

/// How an entry is shown: its IR name, or `<builtin>`.
pub open spec fn display(e: OpMapEntry) -> Seq<char> {
    match e.ir {
        Some(s) => s@,
        None => "<builtin>"@,
    }
}

pub open spec fn unknown_ir_message(n: Seq<char>) -> Seq<char> {
    "\u{274c} Unknown IR op '"@ + n
        + "' (not present in src/ir.rs enums). This prevents invented canonical names."@
}

pub open spec fn collision_message(kind: Seq<char>, name: Seq<char>, first: Seq<char>, second: Seq<char>) -> Seq<
    char,
> {
    kind + " '"@ + name + "' maps to both '"@ + first + "' and '"@ + second + "'"@
}

/// Errors for entries naming an IR operation that the IR does not have.
pub open spec fn unknown_ir_errors(es: Seq<OpMapEntry>, names: Seq<Seq<char>>) -> Seq<Seq<char>>
    decreases es.len(),
{
    if es.len() == 0 {
        Seq::empty()
    } else {
        unknown_ir_errors(es.drop_last(), names) + match es.last().ir {
            Some(s) => if names.contains(s@) {
                Seq::empty()
            } else {
                seq![unknown_ir_message(s@)]
            },
            None => Seq::empty(),
        }
    }
}

/// The (alias, display) pairs of the entries, in order (`legacy` for legacy
/// tokens instead of aliases).
pub open spec fn name_pairs(es: Seq<OpMapEntry>, legacy: bool) -> Seq<(Seq<char>, Seq<char>)>
    decreases es.len(),
{
    if es.len() == 0 {
        Seq::empty()
    } else {
        let e = es.last();
        let names = if legacy {
            e.legacy_tokens@
        } else {
            e.aliases@
        };
        name_pairs(es.drop_last(), legacy) + names.map_values(|a: String| (a@, display(e)))
    }
}

/// The display of the first pair with that name.
pub open spec fn first_display(ps: Seq<(Seq<char>, Seq<char>)>, name: Seq<char>) -> Option<Seq<char>>
    decreases ps.len(),
{
    if ps.len() == 0 {
        None
    } else if ps[0].0 == name {
        Some(ps[0].1)
    } else {
        first_display(ps.drop_first(), name)
    }
}

/// An error for each pair whose name an earlier pair already has.
pub open spec fn collisions(ps: Seq<(Seq<char>, Seq<char>)>, kind: Seq<char>) -> Seq<Seq<char>>
    decreases ps.len(),
{
    if ps.len() == 0 {
        Seq::empty()
    } else {
        collisions(ps.drop_last(), kind) + match first_display(ps.drop_last(), ps.last().0) {
            Some(d) => seq![collision_message(kind, ps.last().0, d, ps.last().1)],
            None => Seq::empty(),
        }
    }
}

/// All validation errors, in the order they are reported.
pub open spec fn op_map_errors(es: Seq<OpMapEntry>, names: Seq<Seq<char>>) -> Seq<Seq<char>> {
    unknown_ir_errors(es, names) + collisions(name_pairs(es, false), "Alias"@) + collisions(
        name_pairs(es, true),
        "Legacy token"@,
    )
}

fn contains_name(names: &[String], n: &str) -> (r: bool)
    ensures
        r == strings_view(names@).contains(n@),
{
    let mut i: usize = 0;
    while i < names.len()
        invariant
            i <= names@.len(),
            forall|j: int| 0 <= j < i ==> names@[j]@ != n@,
        decreases names@.len() - i,
    {
        if str_eq(names[i].as_str(), n) {
            assert(strings_view(names@)[i as int] == n@);
            return true;
        }
        i += 1;
    }
    proof {
        if strings_view(names@).contains(n@) {
            let j = choose|j: int| 0 <= j < strings_view(names@).len() && strings_view(names@)[j] == n@;
            assert(names@[j]@ == n@);
        }
    }
    false
}

pub(crate) fn display_of(e: &OpMapEntry) -> (s: String)
    ensures
        s@ == display(*e),
{
    match &e.ir {
        Some(s) => s.clone(),
        None => String::from_str("<builtin>"),
    }
}

/// The (name, display) pairs of the entries.
fn collect_pairs(entries: &[OpMapEntry], legacy: bool) -> (ps: Vec<(String, String)>)
    ensures
        ps@.map_values(|p: (String, String)| (p.0@, p.1@)) == name_pairs(entries@, legacy),
{
    let mut ps: Vec<(String, String)> = Vec::new();
    let mut i: usize = 0;
    assert(entries@.take(0) =~= Seq::<OpMapEntry>::empty());
    while i < entries.len()
        invariant
            i <= entries@.len(),
            ps@.map_values(|p: (String, String)| (p.0@, p.1@)) == name_pairs(entries@.take(i as int), legacy),
        decreases entries@.len() - i,
    {
        let e = &entries[i];
        let names = if legacy {
            &e.legacy_tokens
        } else {
            &e.aliases
        };
        let d = display_of(e);
        let ghost before = ps@.map_values(|p: (String, String)| (p.0@, p.1@));
        let mut j: usize = 0;
        while j < names.len()
            invariant
                j <= names@.len(),
                d@ == display(*e),
                ps@.map_values(|p: (String, String)| (p.0@, p.1@)) == before + names@.take(j as int).map_values(
                    |a: String| (a@, display(*e)),
                ),
            decreases names@.len() - j,
        {
            let a = names[j].clone();
            let b = d.clone();
            let ghost old_ps = ps@;
            ps.push((a, b));
            assert(names@.take(j + 1) =~= names@.take(j as int).push(names@[j as int]));
            assert(ps@.map_values(|p: (String, String)| (p.0@, p.1@)) =~= old_ps.map_values(
                |p: (String, String)| (p.0@, p.1@),
            ).push((names@[j as int]@, display(*e))));
            assert(ps@.map_values(|p: (String, String)| (p.0@, p.1@)) =~= before + names@.take(j + 1).map_values(
                |a: String| (a@, display(*e)),
            ));
            j += 1;
        }
        assert(names@.take(names@.len() as int) =~= names@);
        assert(entries@.take(i + 1).drop_last() =~= entries@.take(i as int));
        assert(entries@.take(i + 1).last() == *e);
        i += 1;
    }
    assert(entries@.take(entries@.len() as int) =~= entries@);
    ps
}

/// The display of the first of the first `j` pairs named like pair `j`.
fn first_match(ps: &Vec<(String, String)>, j: usize) -> (r: Option<usize>)
    requires
        j < ps@.len(),
    ensures
        match r {
            Some(i) => i < j && ps@[i as int].0@ == ps@[j as int].0@ && first_display(
                ps@.map_values(|p: (String, String)| (p.0@, p.1@)).take(j as int),
                ps@[j as int].0@,
            ) == Some(ps@[i as int].1@),
            None => first_display(
                ps@.map_values(|p: (String, String)| (p.0@, p.1@)).take(j as int),
                ps@[j as int].0@,
            ) is None,
        },
{
    let ghost pv = ps@.map_values(|p: (String, String)| (p.0@, p.1@));
    let ghost name = ps@[j as int].0@;
    let mut i: usize = 0;
    assert(pv.take(j as int).skip(0) =~= pv.take(j as int));
    while i < j
        invariant
            i <= j < ps@.len(),
            pv == ps@.map_values(|p: (String, String)| (p.0@, p.1@)),
            name == ps@[j as int].0@,
            first_display(pv.take(j as int), name) == first_display(pv.take(j as int).skip(i as int), name),
        decreases j - i,
    {
        assert(pv.take(j as int).skip(i as int)[0] == pv[i as int]);
        assert(pv.take(j as int).skip(i as int).drop_first() =~= pv.take(j as int).skip(i + 1));
        if str_eq(ps[i].0.as_str(), ps[j].0.as_str()) {
            return Some(i);
        }
        i += 1;
    }
    None
}

/// Append the collision errors of the pairs.
fn push_collisions(ps: &Vec<(String, String)>, kind: &str, errors: &mut Vec<String>)
    ensures
        strings_view(final(errors)@) == strings_view(old(errors)@) + collisions(
            ps@.map_values(|p: (String, String)| (p.0@, p.1@)),
            kind@,
        ),
{
    let ghost pv = ps@.map_values(|p: (String, String)| (p.0@, p.1@));
    let ghost start = strings_view(errors@);
    let mut j: usize = 0;
    assert(pv.take(0) =~= Seq::<(Seq<char>, Seq<char>)>::empty());
    assert(start + Seq::<Seq<char>>::empty() =~= start);
    while j < ps.len()
        invariant
            j <= ps@.len(),
            pv == ps@.map_values(|p: (String, String)| (p.0@, p.1@)),
            strings_view(errors@) == start + collisions(pv.take(j as int), kind@),
        decreases ps@.len() - j,
    {
        assert(pv.take(j + 1).drop_last() =~= pv.take(j as int));
        assert(pv.take(j + 1).last() == pv[j as int]);
        match first_match(ps, j) {
            Some(i) => {
                let mut m = concat3(kind, " '", ps[j].0.as_str());
                m.append("' maps to both '");
                m.append(ps[i].1.as_str());
                m.append("' and '");
                m.append(ps[j].1.as_str());
                m.append("'");
                assert(m@ == collision_message(kind@, pv[j as int].0, ps@[i as int].1@, pv[j as int].1));
                assert(collisions(pv.take(j + 1), kind@) == collisions(pv.take(j as int), kind@) + seq![m@]);
                let ghost old_errors = errors@;
                errors.push(m);
                assert(strings_view(errors@) =~= strings_view(old_errors).push(m@));
                assert(strings_view(errors@) =~= start + collisions(pv.take(j + 1), kind@));
            },
            None => {
                assert(collisions(pv.take(j + 1), kind@) =~= collisions(pv.take(j as int), kind@));
            },
        }
        j += 1;
    }
    assert(pv.take(ps@.len() as int) =~= pv);
}

/// Validate the dictionary against the IR's operation names: every `ir:`
/// name must be one of them, and no alias (and no legacy token) may name two
/// entries. All errors are reported, in order.
pub fn validate_op_map_against(entries: &[OpMapEntry], ir_names: &[String]) -> (r: Result<(), Vec<String>>)
    ensures
        r is Ok <==> op_map_errors(entries@, strings_view(ir_names@)).len() == 0,
        r matches Err(v) ==> strings_view(v@) == op_map_errors(entries@, strings_view(ir_names@)),
{
    let ghost names_v = strings_view(ir_names@);
    let mut errors: Vec<String> = Vec::new();
    let mut i: usize = 0;
    assert(entries@.take(0) =~= Seq::<OpMapEntry>::empty());
    assert(strings_view(errors@) =~= Seq::<Seq<char>>::empty());
    while i < entries.len()
        invariant
            i <= entries@.len(),
            names_v == strings_view(ir_names@),
            strings_view(errors@) == unknown_ir_errors(entries@.take(i as int), names_v),
        decreases entries@.len() - i,
    {
        let ghost before = strings_view(errors@);
        assert(entries@.take(i + 1).drop_last() =~= entries@.take(i as int));
        assert(entries@.take(i + 1).last() == entries@[i as int]);
        match &entries[i].ir {
            Some(name) => {
                if !contains_name(ir_names, name.as_str()) {
                    let m = concat3(
                        "\u{274c} Unknown IR op '",
                        name.as_str(),
                        "' (not present in src/ir.rs enums). This prevents invented canonical names.",
                    );
                    errors.push(m);
                    assert(strings_view(errors@) =~= before + seq![unknown_ir_message(name@)]);
                } else {
                    assert(strings_view(errors@) =~= before + Seq::<Seq<char>>::empty());
                }
            },
            None => {
                assert(strings_view(errors@) =~= before + Seq::<Seq<char>>::empty());
            },
        }
        i += 1;
    }
    assert(entries@.take(entries@.len() as int) =~= entries@);
    let aliases = collect_pairs(entries, false);
    push_collisions(&aliases, "Alias", &mut errors);
    let tokens = collect_pairs(entries, true);
    push_collisions(&tokens, "Legacy token", &mut errors);
    if errors.len() == 0 {
        Ok(())
    } else {
        Err(errors)
    }
}

/// How a name resolves: as an IR operation when it is one of the IR's
/// operation names, else as a builtin when one is registered under it.
pub fn check_resolve_against(name: &str, ir_names: &[String], is_builtin: bool) -> (r: ResolveStatus)
    ensures
        strings_view(ir_names@).contains(name@) ==> (r matches ResolveStatus::IrOp(s) && s@ == name@),
        !strings_view(ir_names@).contains(name@) && is_builtin ==> r is Builtin,
        !strings_view(ir_names@).contains(name@) && !is_builtin ==> r is Unknown,
{
    if contains_name(ir_names, name) {
        return ResolveStatus::IrOp(String::from_str(name));
    }
    if is_builtin {
        return ResolveStatus::Builtin;
    }
    ResolveStatus::Unknown
}

/// Validate the dictionary against the IR's own operation names
/// (`ir_name_set`): every `ir:` name must be one of them, and no alias (and no
/// legacy token) may name two entries. All errors are reported, in order.
pub fn validate_op_map(entries: &[OpMapEntry]) -> (r: Result<(), Vec<String>>)
    ensures
        r is Ok <==> op_map_errors(entries@, ir_name_list()).len() == 0,
        r matches Err(v) ==> strings_view(v@) == op_map_errors(entries@, ir_name_list()),
{
    let names = ir_name_set();
    assert(strings_view(names@) =~= ir_name_list());
    validate_op_map_against(entries, &names)
}

/// How a name resolves: as an IR operation when it is one of the IR's
/// operation names, else as a builtin when the runtime registers one under
/// it, else as unknown.
pub fn check_resolve(name: &str) -> (r: ResolveStatus)
    ensures
        ir_name_list().contains(name@) ==> (r matches ResolveStatus::IrOp(s) && s@ == name@),
        !ir_name_list().contains(name@) && builtin_names().contains(name@) ==> r is Builtin,
        !ir_name_list().contains(name@) && !builtin_names().contains(name@) ==> r is Unknown,
{
    let names = ir_name_set();
    assert(strings_view(names@) =~= ir_name_list());
    let b = is_registered_builtin(name);
    check_resolve_against(name, &names, b)
}

} // verus!
