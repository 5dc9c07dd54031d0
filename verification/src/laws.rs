//! Properties of the generated code and of the checks, over the models
//! that the executable functions' contracts use.

use vstd::prelude::*;
use crate::codegen::{
    DomainModel, domain_plan, first_absent, first_bad_ident, first_illegal, fold_check,
    from_discriminant_of, kept_domain_names, lemma_first_absent, lemma_first_illegal, parse_variant,
    registry_domain_error, registry_error, registry_names, registry_of, translate_of, variant_idents,
};
use crate::db::{
    FieldInfo, InitStage, InitView, ScanView, columns_query_text, enum_domains_of, has_rows,
    init_queue, init_run, init_step, key_column_count, probe_query_text, runnable_of, scan_query,
    scan_run, scan_step, single_key, stage_label, stage_order, stage_statements,
};
use crate::ident::legal_ident;
use crate::rows::{QueryResult, Row, row_flag};
use crate::search::{lemma_position_of, position_of};
use crate::text::{
    ascii_pascal_case, ascii_pascal_piece, ascii_upper, is_ascii_lower, is_ascii_text, is_separator,
    capitalize, comment_only, is_comment_line, is_whitespace, lines, str_lines, strip_cr, trim,
    trim_end, trim_start, pascal_case, pascal_piece, snake_case, upper_chars, words,
};

verus! {

/// In a sequence without repeats, the first occurrence of an element is its
/// only one.
proof fn lemma_position_of_distinct<A>(s: Seq<A>, v: int)
    requires
        0 <= v < s.len(),
        forall|i: int, j: int| 0 <= i < j < s.len() ==> s[i] != s[j],
    ensures
        position_of(s, s[v]) == Some(v),
{
    lemma_position_of(s, s[v]);
    assert(s.contains(s[v]));
    match position_of(s, s[v]) {
        Some(i) => {
            if i < v {
                assert(s[i] != s[v]);
            }
        },
        None => {},
    }
}

/// Every variant comes back from its discriminant: the discriminant of
/// variant `v` is `v`, and `from_discriminant(v)` is variant `v`.
pub proof fn law_discriminant_roundtrip(m: DomainModel, v: int)
    requires
        0 <= v < m.variants.len(),
    ensures
        from_discriminant_of(m, v) == Some(v),
{
}

/// `from_discriminant` finds a variant exactly for the discriminants below
/// `COUNT`, and the variant it finds has the discriminant it was given.
pub proof fn law_from_discriminant_range(m: DomainModel, d: int)
    requires
        0 <= d,
    ensures
        from_discriminant_of(m, d) is Some <==> d < m.variants.len(),
        from_discriminant_of(m, d) matches Some(v) ==> v == d,
{
}

/// Parsing the name of a variant gives back that variant, when no two
/// variants share a name.
pub proof fn law_name_parses_back(m: DomainModel, v: int)
    requires
        0 <= v < m.variants.len(),
        forall|i: int, j: int| 0 <= i < j < m.variants.len() ==> m.variants[i] != m.variants[j],
    ensures
        parse_variant(m, m.variants[v]) == Ok::<int, Seq<char>>(v),
{
    lemma_position_of_distinct(m.variants, v);
}

/// Parsing succeeds exactly on the names of the variants, and the variant
/// found carries the parsed name; anything else is refused with
/// `unknown NAME variant: S`.
pub proof fn law_parse_accepts_only_names(m: DomainModel, s: Seq<char>)
    ensures
        parse_variant(m, s) is Ok <==> m.variants.contains(s),
        parse_variant(m, s) matches Ok(i) ==> 0 <= i < m.variants.len() && m.variants[i] == s,
        !m.variants.contains(s) ==> parse_variant(m, s) == Err::<int, Seq<char>>(
            "unknown "@ + m.name + " variant: "@ + s,
        ),
{
    lemma_position_of(m.variants, s);
}

/// The identifier of a variant names that variant, when no two variants
/// share an identifier.
pub proof fn law_ident_names_variant(m: DomainModel, v: int)
    requires
        0 <= v < m.variants.len(),
        forall|i: int, j: int|
            0 <= i < j < m.variants.len() ==> variant_idents(m)[i] != variant_idents(m)[j],
    ensures
        position_of(variant_idents(m), variant_idents(m)[v]) == Some(v),
{
    lemma_position_of_distinct(variant_idents(m), v);
}

/// A fold is accepted exactly when its arms name every variant and name
/// nothing else.
pub proof fn law_fold_accepts_exact_cover(
    domain: Seq<char>,
    expected: Seq<Seq<char>>,
    arms: Seq<Seq<char>>,
)
    ensures
        fold_check(domain, expected, arms) is Ok <==> (forall|i: int|
            0 <= i < expected.len() ==> arms.contains(#[trigger] expected[i])) && (forall|j: int|
            0 <= j < arms.len() ==> expected.contains(#[trigger] arms[j])),
{
    lemma_first_absent(expected, arms);
    lemma_first_absent(arms, expected);
}

/// An accepted fold has an arm for every variant, so the generated `match`
/// is exhaustive; a variant without an arm makes the fold a compile error
/// that names the first such variant.
pub proof fn law_fold_exhaustive(domain: Seq<char>, expected: Seq<Seq<char>>, arms: Seq<Seq<char>>)
    ensures
        fold_check(domain, expected, arms) is Ok ==> forall|i: int|
            0 <= i < expected.len() ==> #[trigger] position_of(arms, expected[i]) is Some,
        first_absent(expected, arms) matches Some(i) ==> fold_check(domain, expected, arms)
            == Err::<(), Seq<char>>(
            "lojix::fold!("@ + domain + "): missing arm for variant `"@ + expected[i] + "`"@,
        ),
{
    lemma_first_absent(expected, arms);
    lemma_first_absent(arms, expected);
    if fold_check(domain, expected, arms) is Ok {
        assert forall|i: int| 0 <= i < expected.len() implies #[trigger] position_of(
            arms,
            expected[i],
        ) is Some by {
            lemma_position_of(arms, expected[i]);
        }
    }
    if first_absent(expected, arms) is Some {
        let i = first_absent(expected, arms)->0;
        assert("lojix::"@ + "fold"@ + "!("@ + domain + "): "@ + ("missing arm for variant `"@
            + expected[i] + "`"@) == "lojix::fold!("@ + domain + "): missing arm for variant `"@
            + expected[i] + "`"@) by {
            reveal_strlit("lojix::");
            reveal_strlit("fold");
            reveal_strlit("!(");
            reveal_strlit("): ");
            reveal_strlit("lojix::fold!(");
            reveal_strlit("): missing arm for variant `");
            reveal_strlit("missing arm for variant `");
        }
    }
}

/// The registry lists one name per enumeration (`DOMAIN_NAMES` has
/// `DOMAIN_COUNT` entries), in registry order.
pub proof fn law_registry_names_count(r: Seq<DomainModel>)
    ensures
        registry_names(r).len() == r.len(),
        forall|k: int| 0 <= k < r.len() ==> #[trigger] registry_names(r)[k] == r[k].name,
{
}

/// `translate_domain` answers the name of the variant with the given
/// discriminant of the enumeration it names, and nothing for a name that is
/// no enumeration of the registry.
pub proof fn law_translate(r: Seq<DomainModel>, k: int, d: int)
    requires
        0 <= k < r.len(),
        forall|i: int, j: int| 0 <= i < j < r.len() ==> r[i].name != r[j].name,
        0 <= d < r[k].variants.len(),
    ensures
        translate_of(r, r[k].name, d) == Some(r[k].variants[d]),
{
    law_registry_names_count(r);
    lemma_position_of_distinct(registry_names(r), k);
}

/// `translate_domain` answers nothing for a domain the registry does not hold.
pub proof fn law_translate_unknown_domain(r: Seq<DomainModel>, name: Seq<char>, d: int)
    requires
        !registry_names(r).contains(name),
    ensures
        translate_of(r, name, d) is None,
{
    lemma_position_of(registry_names(r), name);
}

/// Snake case keeps the length of a name and leaves no `-` in it.
pub proof fn law_snake_case_has_no_hyphen(s: Seq<char>)
    ensures
        snake_case(s).len() == s.len(),
        forall|i: int| 0 <= i < s.len() ==> #[trigger] snake_case(s)[i] != '-',
{
}

/// `-` and `_` separate words alike: a name and its snake-case form have the
/// same Pascal-case form.
pub proof fn law_pascal_ignores_separator_kind(s: Seq<char>)
    ensures
        pascal_case(snake_case(s)) == pascal_case(s),
{
    let t = snake_case(s);
    assert(Seq::new(t.len(), |i: int| pascal_piece(t, i)) =~= Seq::new(
        s.len(),
        |i: int| pascal_piece(s, i),
    ));
}

/// How many separators (`_` or `-`) `s` holds.
pub open spec fn separator_count(s: Seq<char>) -> nat
    decreases s.len(),
{
    if s.len() == 0 {
        0
    } else {
        separator_count(s.drop_last()) + if is_separator(s.last()) {
            1nat
        } else {
            0nat
        }
    }
}

/// The ASCII Pascal-case form of a name is that of the name without its last
/// character, followed by what the last character contributes.
proof fn lemma_ascii_pascal_last(s: Seq<char>)
    requires
        s.len() > 0,
    ensures
        ascii_pascal_case(s) == ascii_pascal_case(s.drop_last()) + ascii_pascal_piece(
            s,
            s.len() - 1,
        ),
{
    let p = s.drop_last();
    let n = s.len();
    let prev = Seq::new(p.len(), |i: int| ascii_pascal_piece(p, i));
    assert forall|i: int| 0 <= i < n - 1 implies ascii_pascal_piece(s, i) == #[trigger] prev[i] by {
        assert(s[i] == p[i]);
        if i > 0 {
            assert(s[i - 1] == p[i - 1]);
        }
    }
    assert(Seq::new(n, |i: int| ascii_pascal_piece(s, i)) =~= prev.push(
        ascii_pascal_piece(s, n - 1),
    ));
    prev.lemma_flatten_push(ascii_pascal_piece(s, n - 1));
}

/// What the ASCII Pascal-case form of an ASCII name is made of: ASCII
/// characters other than separators, empty exactly when the name is all
/// separators, and starting with no lower-case letter.
proof fn lemma_ascii_pascal_shape(s: Seq<char>)
    requires
        is_ascii_text(s),
    ensures
        ascii_pascal_case(s).len() == s.len() - separator_count(s),
        is_ascii_text(ascii_pascal_case(s)),
        forall|k: int|
            0 <= k < ascii_pascal_case(s).len() ==> !is_separator(
                #[trigger] ascii_pascal_case(s)[k],
            ),
        ascii_pascal_case(s).len() == 0 <==> forall|k: int| 0 <= k < s.len() ==> is_separator(
            #[trigger] s[k],
        ),
        ascii_pascal_case(s).len() > 0 ==> !is_ascii_lower(ascii_pascal_case(s)[0]),
    decreases s.len(),
{
    if s.len() == 0 {
        assert(ascii_pascal_case(s) =~= Seq::<char>::empty());
    } else {
        let p = s.drop_last();
        let n = s.len();
        assert forall|k: int| 0 <= k < p.len() implies (#[trigger] p[k] as u32) < 128 by {
            assert(p[k] == s[k]);
        }
        lemma_ascii_pascal_shape(p);
        lemma_ascii_pascal_last(s);
        let t = ascii_pascal_case(s);
        let tp = ascii_pascal_case(p);
        let piece = ascii_pascal_piece(s, n - 1);
        let c = s[n - 1];
        assert((c as u32) < 128);
        assert(t == tp + piece);
        assert forall|k: int| 0 <= k < piece.len() implies !is_separator(#[trigger] piece[k])
            && (piece[k] as u32) < 128 by {}
        assert forall|k: int| 0 <= k < t.len() implies !is_separator(#[trigger] t[k]) by {
            if k < tp.len() {
                assert(t[k] == tp[k]);
            } else {
                assert(t[k] == piece[k - tp.len()]);
            }
        }
        assert forall|k: int| 0 <= k < t.len() implies (#[trigger] t[k] as u32) < 128 by {
            if k < tp.len() {
                assert(t[k] == tp[k]);
            } else {
                assert(t[k] == piece[k - tp.len()]);
            }
        }
        if t.len() == 0 {
            assert forall|k: int| 0 <= k < s.len() implies is_separator(#[trigger] s[k]) by {
                if k < n - 1 {
                    assert(s[k] == p[k]);
                }
            }
        }
        if forall|k: int| 0 <= k < s.len() ==> is_separator(#[trigger] s[k]) {
            assert forall|k: int| 0 <= k < p.len() implies is_separator(#[trigger] p[k]) by {
                assert(p[k] == s[k]);
                assert(is_separator(s[k]));
            }
            assert(is_separator(s[n - 1]));
        }
        if t.len() > 0 {
            if tp.len() > 0 {
                assert(t[0] == tp[0]);
            } else {
                assert(piece.len() > 0);
                assert(!is_separator(c));
                if n > 1 {
                    assert(is_separator(p[n - 2]));
                    assert(s[n - 2] == p[n - 2]);
                }
                assert(t[0] == piece[0]);
                assert(piece[0] == ascii_upper(c));
            }
        }
    }
}

/// On a name without separators, the ASCII Pascal-case form only maps the
/// first character.
proof fn lemma_ascii_pascal_of_word(t: Seq<char>)
    requires
        t.len() > 0,
        forall|k: int| 0 <= k < t.len() ==> !is_separator(#[trigger] t[k]),
    ensures
        ascii_pascal_case(t) == t.update(0, ascii_upper(t[0])),
    decreases t.len(),
{
    lemma_ascii_pascal_last(t);
    let p = t.drop_last();
    if t.len() == 1 {
        assert(p.len() == 0);
        assert(ascii_pascal_case(p) =~= Seq::<char>::empty());
        assert(ascii_pascal_case(t) =~= t.update(0, ascii_upper(t[0])));
    } else {
        assert forall|k: int| 0 <= k < p.len() implies !is_separator(#[trigger] p[k]) by {
            assert(p[k] == t[k]);
        }
        lemma_ascii_pascal_of_word(p);
        assert(!is_separator(t[t.len() - 2]));
        assert(ascii_pascal_case(t) =~= t.update(0, ascii_upper(t[0])));
    }
}

/// On ASCII names, the Pascal-case form is ASCII, holds one character for
/// each character of the name that is not a separator, and is its own
/// Pascal-case form, so converting twice gives what converting once gives.
pub proof fn law_ascii_pascal_case(s: Seq<char>)
    requires
        is_ascii_text(s),
    ensures
        ascii_pascal_case(s).len() == s.len() - separator_count(s),
        is_ascii_text(ascii_pascal_case(s)),
        ascii_pascal_case(ascii_pascal_case(s)) == ascii_pascal_case(s),
{
    lemma_ascii_pascal_shape(s);
    let t = ascii_pascal_case(s);
    if t.len() == 0 {
        assert(ascii_pascal_case(t) =~= t);
    } else {
        lemma_ascii_pascal_of_word(t);
        assert(ascii_upper(t[0]) == t[0]);
        assert(t.update(0, t[0]) =~= t);
    }
}

/// `domain_registry!()` generates one enumeration for each enumeration
/// domain whose variant query succeeds with at least one variant, and for no
/// other, in the order of the domains (`Registry::from_answers` builds
/// `registry_of` unless an identifier is illegal): `DOMAIN_NAMES` lists
/// exactly those names and `DOMAIN_COUNT` counts them.
pub proof fn law_registry_lists_kept_domains(
    names: Seq<Seq<char>>,
    answers: Seq<Result<Vec<String>, String>>,
)
    requires
        names.len() == answers.len(),
    ensures
        registry_names(registry_of(names, answers)) == kept_domain_names(names, answers),
        registry_of(names, answers).len() == kept_domain_names(names, answers).len(),
    decreases names.len(),
{
    if names.len() > 0 {
        law_registry_lists_kept_domains(names.drop_last(), answers.drop_last());
        let prev = registry_of(names.drop_last(), answers.drop_last());
        assert(registry_names(prev) == kept_domain_names(names.drop_last(), answers.drop_last()));
        match answers.last() {
            Ok(v) => {
                if v@.len() > 0 {
                    let m = DomainModel { name: names.last(), variants: crate::rows::strings(v@) };
                    assert(registry_names(prev.push(m)) =~= registry_names(prev).push(names.last()));
                }
            },
            Err(_) => {},
        }
    } else {
        assert(registry_names(registry_of(names, answers)) =~= Seq::<Seq<char>>::empty());
    }
}

/// What the rest of a scan from `v` keeps, each query answered by `db`.
proof fn lemma_scan_run(v: ScanView, db: spec_fn(Seq<char>) -> Result<QueryResult, String>)
    requires
        v.pos <= v.names.len(),
        v.probing ==> v.pos < v.names.len() && single_key(
            db(columns_query_text(v.names[v.pos as int])),
        ),
    ensures
        scan_run(v, db) == (ScanView {
            names: v.names,
            pos: v.names.len(),
            probing: false,
            found: v.found + if v.probing {
                (if has_rows(db(probe_query_text(v.names[v.pos as int]))) {
                    seq![v.names[v.pos as int]]
                } else {
                    Seq::empty()
                }) + enum_domains_of(v.names.skip(v.pos as int + 1), db)
            } else {
                enum_domains_of(v.names.skip(v.pos as int), db)
            },
        }),
    decreases v.names.len() - v.pos, if v.probing {
            0int
        } else {
            1int
        },
{
    let n = v.names;
    if v.pos < n.len() {
        let p = v.pos as int;
        let name = n[p];
        let w = scan_step(v, db(scan_query(v)));
        lemma_scan_run(w, db);
        assert(n.skip(p)[0] == name);
        assert(n.skip(p).drop_first() == n.skip(p + 1));
        let rest = enum_domains_of(n.skip(p + 1), db);
        if !v.probing {
            if single_key(db(columns_query_text(name))) {
                let hit: Seq<Seq<char>> = if has_rows(db(probe_query_text(name))) {
                    seq![name]
                } else {
                    Seq::empty()
                };
                assert(enum_domains_of(n.skip(p), db) == hit + rest);
            } else {
                assert(enum_domains_of(n.skip(p), db) =~= rest);
                assert(v.found + rest =~= v.found + enum_domains_of(n.skip(p), db));
            }
        } else {
            let hit: Seq<Seq<char>> = if has_rows(db(probe_query_text(name))) {
                seq![name]
            } else {
                Seq::empty()
            };
            assert(w.found == v.found + hit);
            assert(w.found + rest =~= v.found + (hit + rest));
        }
    } else {
        assert(n.skip(v.pos as int) =~= Seq::<Seq<char>>::empty());
        assert(v.found + enum_domains_of(n.skip(v.pos as int), db) =~= v.found);
    }
}

/// A whole scan, each query answered by the same database `db`, keeps
/// exactly the registered names whose relation has one key column and a
/// row, in registry order, and then asks nothing more.
pub proof fn law_scan_keeps_enum_domains(
    names: Seq<Seq<char>>,
    db: spec_fn(Seq<char>) -> Result<QueryResult, String>,
)
    ensures
        scan_run(ScanView { names, pos: 0, probing: false, found: Seq::empty() }, db) == (ScanView {
            names,
            pos: names.len(),
            probing: false,
            found: enum_domains_of(names, db),
        }),
{
    let v = ScanView { names, pos: 0, probing: false, found: Seq::empty() };
    lemma_scan_run(v, db);
    assert(names.skip(0) == names);
    assert(Seq::<Seq<char>>::empty() + enum_domains_of(names, db) =~= enum_domains_of(names, db));
}

/// What the rest of a load from `v` does, each outcome given by `run`.
proof fn lemma_init_run(v: InitView, run: spec_fn(Seq<char>) -> Result<(), Seq<char>>)
    requires
        v.pos <= v.queue.len(),
        v.failure is None,
    ensures
        (forall|j: int| v.pos <= j < v.queue.len() ==> #[trigger] run(v.queue[j].1) is Ok)
            ==> init_run(v, run) == (InitView { pos: v.queue.len(), ..v }),
        forall|k: int|
            v.pos <= k < v.queue.len() && (forall|j: int|
                v.pos <= j < k ==> #[trigger] run(v.queue[j].1) is Ok) && #[trigger] run(
                v.queue[k].1,
            ) is Err ==> init_run(v, run) == (InitView {
                pos: k as nat,
                failure: Some(stage_label(v.queue[k].0) + ": "@ + run(v.queue[k].1)->Err_0),
                ..v
            }),
    decreases v.queue.len() - v.pos,
{
    let q = v.queue;
    if v.pos < q.len() {
        let p = v.pos as int;
        match run(q[p].1) {
            Ok(_) => {
                let w = InitView { pos: v.pos + 1, ..v };
                lemma_init_run(w, run);
                assert forall|k: int|
                    v.pos <= k < q.len() && (forall|j: int|
                        v.pos <= j < k ==> #[trigger] run(q[j].1) is Ok) && #[trigger] run(
                        q[k].1,
                    ) is Err implies init_run(v, run) == (InitView {
                    pos: k as nat,
                    failure: Some(stage_label(q[k].0) + ": "@ + run(q[k].1)->Err_0),
                    ..v
                }) by {
                    if k == p {
                        assert(run(q[p].1) is Ok);
                    }
                }
            },
            Err(e) => {
                let w = init_step(v, run(q[p].1));
                assert(w == InitView {
                    failure: Some(stage_label(q[p].0) + ": "@ + e),
                    ..v
                });
                assert(init_run(w, run) == w);
                assert(init_run(v, run) == init_run(w, run));
                assert forall|k: int|
                    v.pos <= k < q.len() && (forall|j: int|
                        v.pos <= j < k ==> #[trigger] run(q[j].1) is Ok) && #[trigger] run(
                        q[k].1,
                    ) is Err implies k == p by {
                    if k > p {
                        assert(run(q[p].1) is Ok);
                    }
                }
            },
        }
    }
}

/// Loading runs the runnable statements of every step, the steps in order
/// and each step's statements in script order, each once: when all succeed
/// it ends after the last with no failure; otherwise it stops at the first
/// failing statement, having run none after it, with that statement's step
/// label and error.
pub proof fn law_init_runs_in_order(
    scripts: Seq<Seq<Seq<char>>>,
    run: spec_fn(Seq<char>) -> Result<(), Seq<char>>,
)
    ensures
        ({
            let q = init_queue(scripts);
            &&& (forall|j: int| 0 <= j < q.len() ==> #[trigger] run(q[j].1) is Ok) ==> init_run(
                InitView { queue: q, pos: 0, failure: None },
                run,
            ) == (InitView { queue: q, pos: q.len(), failure: None })
            &&& forall|k: int|
                0 <= k < q.len() && (forall|j: int| 0 <= j < k ==> #[trigger] run(q[j].1) is Ok)
                    && #[trigger] run(q[k].1) is Err ==> init_run(
                    InitView { queue: q, pos: 0, failure: None },
                    run,
                ) == (InitView {
                    queue: q,
                    pos: k as nat,
                    failure: Some(stage_label(q[k].0) + ": "@ + run(q[k].1)->Err_0),
                })
        }),
{
    let q = init_queue(scripts);
    lemma_init_run(InitView { queue: q, pos: 0, failure: None }, run);
}

/// The enumerations that `domain!(NAME)` generates for the given domains and
/// answers, in order, leaving out those it reports an error for.
pub open spec fn planned_domains(
    names: Seq<Seq<char>>,
    answers: Seq<Result<Vec<String>, String>>,
) -> Seq<DomainModel>
    decreases names.len(),
{
    if names.len() == 0 || answers.len() == 0 {
        Seq::empty()
    } else {
        let prev = planned_domains(names.drop_last(), answers.drop_last());
        match domain_plan(names.last(), answers.last()) {
            Ok(m) => prev.push(m),
            Err(_) => prev,
        }
    }
}

/// When `domain_registry!()` succeeds, each of its enumerations is the one
/// `domain!(NAME)` generates for that domain from the same answer, and the
/// domains it leaves out are exactly those `domain!` reports an error for.
pub proof fn law_registry_matches_domain_macro(
    names: Seq<Seq<char>>,
    answers: Seq<Result<Vec<String>, String>>,
)
    requires
        names.len() == answers.len(),
        registry_error(names, answers) is None,
    ensures
        registry_of(names, answers) == planned_domains(names, answers),
    decreases names.len(),
{
    if names.len() > 0 {
        let pn = names.drop_last();
        let pa = answers.drop_last();
        assert(registry_error(pn, pa) is None);
        law_registry_matches_domain_macro(pn, pa);
        match answers.last() {
            Ok(v) => {
                if v@.len() > 0 {
                    assert(registry_domain_error(names.last(), crate::rows::strings(v@)) is None);
                }
            },
            Err(_) => {},
        }
    }
}

/// The Pascal-case form of a name is that of the name without its last
/// character, followed by what the last character contributes.
proof fn lemma_pascal_last(s: Seq<char>)
    requires
        s.len() > 0,
    ensures
        pascal_case(s) == pascal_case(s.drop_last()) + pascal_piece(s, s.len() - 1),
{
    let p = s.drop_last();
    let n = s.len();
    let prev = Seq::new(p.len(), |i: int| pascal_piece(p, i));
    assert forall|i: int| 0 <= i < n - 1 implies pascal_piece(s, i) == #[trigger] prev[i] by {
        assert(s[i] == p[i]);
        if i > 0 {
            assert(s[i - 1] == p[i - 1]);
        }
    }
    assert(Seq::new(n, |i: int| pascal_piece(s, i)) =~= prev.push(pascal_piece(s, n - 1)));
    prev.lemma_flatten_push(pascal_piece(s, n - 1));
}

/// A name has at least one word, and its last word is empty exactly when
/// the name is empty or ends with a separator.
proof fn lemma_words_last(s: Seq<char>)
    ensures
        words(s).len() >= 1,
        words(s).last().len() == 0 <==> (s.len() == 0 || is_separator(s.last())),
    decreases s.len(),
{
    if s.len() > 0 {
        lemma_words_last(s.drop_last());
    }
}

/// Pascal case splits a name at `_` and `-`, upper-cases the first character
/// of each piece, keeps the rest of it, and joins the pieces in order (empty
/// pieces give nothing).
pub proof fn law_pascal_case_by_words(s: Seq<char>)
    ensures
        pascal_case(s) == words(s).map_values(|w: Seq<char>| capitalize(w)).flatten(),
    decreases s.len(),
{
    let cap = |w: Seq<char>| capitalize(w);
    if s.len() == 0 {
        assert(pascal_case(s) =~= Seq::<char>::empty());
        let x = words(s).map_values(cap);
        assert(x =~= seq![Seq::<char>::empty()]);
        x.lemma_flatten_singleton();
    } else {
        let p = s.drop_last();
        let n = s.len();
        let c = s.last();
        law_pascal_case_by_words(p);
        lemma_pascal_last(s);
        lemma_words_last(p);
        let w = words(p);
        let x = w.map_values(cap);
        let xp = w.drop_last().map_values(cap);
        assert(x =~= xp.push(cap(w.last())));
        xp.lemma_flatten_push(cap(w.last()));
        if is_separator(c) {
            assert(words(s) == w.push(Seq::<char>::empty()));
            assert(words(s).map_values(cap) =~= x.push(Seq::<char>::empty()));
            x.lemma_flatten_push(Seq::<char>::empty());
            assert(pascal_piece(s, n - 1) =~= Seq::<char>::empty());
            assert(pascal_case(s) =~= pascal_case(p) + Seq::<char>::empty());
        } else {
            let last = w.last().push(c);
            assert(words(s) == w.update(w.len() - 1, last));
            assert(words(s).map_values(cap) =~= xp.push(cap(last)));
            xp.lemma_flatten_push(cap(last));
            if n == 1 || is_separator(p.last()) {
                if n > 1 {
                    assert(s[n - 2] == p.last());
                }
                assert(w.last().len() == 0);
                assert(last =~= seq![c]);
                assert(cap(last) =~= upper_chars(c) + Seq::<char>::empty());
                assert(pascal_piece(s, n - 1) == upper_chars(c));
                assert(cap(w.last()) =~= Seq::<char>::empty());
                assert(xp.flatten() + cap(w.last()) =~= xp.flatten());
            } else {
                assert(s[n - 2] == p.last());
                assert(w.last().len() > 0);
                assert(last[0] == w.last()[0]);
                assert(last.drop_first() =~= w.last().drop_first().push(c));
                assert(cap(last) =~= cap(w.last()) + seq![c]);
                assert(pascal_piece(s, n - 1) == seq![c]);
            }
        }
    }
}

/// Trimming the start of a line extended by one character.
proof fn lemma_trim_start_push(m: Seq<char>, c: char)
    ensures
        trim_start(m.push(c)) == if trim_start(m).len() == 0 {
            trim_start(seq![c])
        } else {
            trim_start(m).push(c)
        },
    decreases m.len(),
{
    if m.len() == 0 {
        assert(m.push(c) =~= seq![c]);
    } else {
        assert(m.push(c)[0] == m[0]);
        if is_whitespace(m[0]) {
            assert(m.push(c).drop_first() =~= m.drop_first().push(c));
            lemma_trim_start_push(m.drop_first(), c);
        }
    }
}

/// A `\r` at the end of a line is whitespace, so trimming removes it.
proof fn lemma_trim_strip_cr(l: Seq<char>)
    ensures
        trim(strip_cr(l)) == trim(l),
{
    if l.len() > 0 && l.last() == '\r' {
        let m = l.drop_last();
        assert(m.push('\r') =~= l);
        lemma_trim_start_push(m, '\r');
        assert(is_whitespace('\r'));
        if trim_start(m).len() == 0 {
            assert(seq!['\r'].drop_first() =~= Seq::<char>::empty());
            assert(trim_start(seq!['\r']) == trim_start(Seq::<char>::empty()));
            assert(trim_start(l) =~= Seq::<char>::empty());
        } else {
            let t = trim_start(m);
            assert(t.push('\r').drop_last() =~= t);
            assert(trim_end(t.push('\r')) == trim_end(t));
        }
    }
}

/// A string has at least one line piece.
proof fn lemma_lines_nonempty(s: Seq<char>)
    ensures
        lines(s).len() >= 1,
    decreases s.len(),
{
    if s.len() > 0 {
        lemma_lines_nonempty(s.drop_last());
    }
}

/// `is_comment_only` answers whether every line that `str::lines` yields
/// is, once trimmed, empty or begins with `#` or `//`.
pub proof fn law_comment_only_by_str_lines(s: Seq<char>)
    ensures
        comment_only(s) == forall|k: int|
            0 <= k < str_lines(s).len() ==> #[trigger] is_comment_line(str_lines(s)[k]),
{
    lemma_lines_nonempty(s);
    let ls = lines(s);
    let sl = str_lines(s);
    let n = ls.len();
    assert(trim(Seq::<char>::empty()) =~= Seq::<char>::empty());
    assert forall|k: int| 0 <= k < n - 1 implies #[trigger] is_comment_line(sl[k])
        == is_comment_line(ls[k]) by {
        assert(sl[k] == strip_cr(ls[k]));
        lemma_trim_strip_cr(ls[k]);
    }
    if comment_only(s) {
        assert forall|k: int| 0 <= k < sl.len() implies #[trigger] is_comment_line(sl[k]) by {
            if k < n - 1 {
                assert(is_comment_line(ls[k]));
            } else {
                assert(sl[k] == ls[n - 1]);
                assert(is_comment_line(ls[n - 1]));
            }
        }
    }
    if forall|k: int| 0 <= k < sl.len() ==> #[trigger] is_comment_line(sl[k]) {
        assert forall|k: int| 0 <= k < n implies #[trigger] is_comment_line(ls[k]) by {
            if k < n - 1 {
                assert(is_comment_line(sl[k]));
            } else if ls[n - 1].len() > 0 {
                assert(sl[n - 1] == ls[n - 1]);
                assert(is_comment_line(sl[n - 1]));
            } else {
                assert(ls[k] =~= Seq::<char>::empty());
            }
        }
    }
}

/// A column row marked as a key column.
spec fn is_key_row(r: Row) -> bool {
    row_flag(r, 1) == Some(true)
}

/// No column row is a key column exactly when the count of key columns is
/// zero.
proof fn lemma_no_key_column(cols: Seq<Row>)
    ensures
        key_column_count(cols) == 0 <==> forall|j: int|
            0 <= j < cols.len() ==> !is_key_row(#[trigger] cols[j]),
    decreases cols.len(),
{
    if cols.len() > 0 {
        let p = cols.drop_last();
        let n = cols.len();
        lemma_no_key_column(p);
        if key_column_count(cols) == 0 {
            assert forall|j: int| 0 <= j < cols.len() implies !is_key_row(#[trigger] cols[j]) by {
                if j < n - 1 {
                    assert(cols[j] == p[j]);
                }
            }
        }
        if forall|j: int| 0 <= j < cols.len() ==> !is_key_row(#[trigger] cols[j]) {
            assert forall|j: int| 0 <= j < p.len() implies !is_key_row(#[trigger] p[j]) by {
                assert(cols[j] == p[j]);
            }
            assert(!is_key_row(cols[n - 1]));
        }
    }
}

/// Exactly one column row is a key column.
spec fn one_key_row(cols: Seq<Row>) -> bool {
    exists|k: int|
        0 <= k < cols.len() && is_key_row(#[trigger] cols[k]) && forall|j: int|
            0 <= j < cols.len() && j != k ==> !is_key_row(#[trigger] cols[j])
}

/// A count of one key column comes from a single key row.
proof fn lemma_one_key_column_found(cols: Seq<Row>)
    requires
        key_column_count(cols) == 1,
    ensures
        one_key_row(cols),
    decreases cols.len(),
{
    let p = cols.drop_last();
    let n = cols.len();
    if is_key_row(cols[n - 1]) {
        lemma_no_key_column(p);
        assert forall|j: int| 0 <= j < cols.len() && j != n - 1 implies !is_key_row(
            #[trigger] cols[j],
        ) by {
            assert(cols[j] == p[j]);
        }
        assert(is_key_row(cols[n - 1]));
    } else {
        lemma_one_key_column_found(p);
        let k = choose|k: int|
            0 <= k < p.len() && is_key_row(#[trigger] p[k]) && forall|j: int|
                0 <= j < p.len() && j != k ==> !is_key_row(#[trigger] p[j]);
        assert(cols[k] == p[k]);
        assert forall|j: int| 0 <= j < cols.len() && j != k implies !is_key_row(
            #[trigger] cols[j],
        ) by {
            if j < n - 1 {
                assert(cols[j] == p[j]);
            }
        }
    }
}

/// A single key row makes a count of one key column.
proof fn lemma_one_key_column_counted(cols: Seq<Row>)
    requires
        one_key_row(cols),
    ensures
        key_column_count(cols) == 1,
    decreases cols.len(),
{
    let p = cols.drop_last();
    let n = cols.len();
    let k = choose|k: int|
        0 <= k < cols.len() && is_key_row(#[trigger] cols[k]) && forall|j: int|
            0 <= j < cols.len() && j != k ==> !is_key_row(#[trigger] cols[j]);
    if k == n - 1 {
        lemma_no_key_column(p);
        assert forall|j: int| 0 <= j < p.len() implies !is_key_row(#[trigger] p[j]) by {
            assert(cols[j] == p[j]);
        }
    } else {
        assert(p[k] == cols[k]);
        assert(!is_key_row(cols[n - 1]));
        assert forall|j: int| 0 <= j < p.len() && j != k implies !is_key_row(#[trigger] p[j]) by {
            assert(cols[j] == p[j]);
        }
        lemma_one_key_column_counted(p);
    }
}

/// Exactly one column row is a key column exactly when the count of key
/// columns is one.
proof fn lemma_one_key_column(cols: Seq<Row>)
    ensures
        key_column_count(cols) == 1 <==> one_key_row(cols),
{
    if key_column_count(cols) == 1 {
        lemma_one_key_column_found(cols);
    }
    if one_key_row(cols) {
        lemma_one_key_column_counted(cols);
    }
}

/// A relation counts as single-keyed exactly when its column query succeeds
/// with rows and exactly one column row is marked as a key; columns that
/// are not keys do not matter.
pub proof fn law_single_key_means_one_key_column(answer: Result<QueryResult, String>)
    ensures
        single_key(answer) <==> (answer matches Ok(res) && res.rows matches Some(cols) && exists|
            k: int,
        |
            0 <= k < cols@.len() && row_flag(#[trigger] cols@[k], 1) == Some(true) && forall|
                j: int,
            |
                0 <= j < cols@.len() && j != k ==> row_flag(#[trigger] cols@[j], 1) != Some(true)),
{
    match answer {
        Ok(res) => match res.rows {
            Some(cols) => lemma_one_key_column(cols@),
            None => {},
        },
        Err(_) => {},
    }
}

/// A product is refused for its fields exactly when a field name, or the
/// target of a domain-kind field, is no legal identifier; the one reported
/// is such a name or target.
pub proof fn law_product_refuses_only_bad_identifiers(fs: Seq<FieldInfo>)
    ensures
        first_bad_ident(fs) is None <==> forall|i: int|
            0 <= i < fs.len() ==> legal_ident((#[trigger] fs[i]).name@) && (fs[i].kind@
                == "domain"@ ==> legal_ident(fs[i].target_domain@)),
        first_bad_ident(fs) matches Some(x) ==> exists|i: int|
            0 <= i < fs.len() && ((x == (#[trigger] fs[i]).name@ && !legal_ident(x)) || (fs[i].kind@
                == "domain"@ && x == fs[i].target_domain@ && !legal_ident(x))),
    decreases fs.len(),
{
    if fs.len() > 0 {
        let p = fs.drop_last();
        let n = fs.len();
        law_product_refuses_only_bad_identifiers(p);
        assert forall|j: int| 0 <= j < n - 1 implies #[trigger] fs[j] == p[j] by {}
        match first_bad_ident(p) {
            Some(x) => {
                let i = choose|i: int|
                    0 <= i < p.len() && ((x == (#[trigger] p[i]).name@ && !legal_ident(x)) || (
                    p[i].kind@ == "domain"@ && x == p[i].target_domain@ && !legal_ident(x)));
                assert(fs[i] == p[i]);
                let j = choose|j: int|
                    0 <= j < p.len() && !(legal_ident((#[trigger] p[j]).name@) && (p[j].kind@
                        == "domain"@ ==> legal_ident(p[j].target_domain@)));
                assert(fs[j] == p[j]);
            },
            None => {
                if first_bad_ident(fs) is None {
                    assert forall|i: int| 0 <= i < fs.len() implies legal_ident(
                        (#[trigger] fs[i]).name@,
                    ) && (fs[i].kind@ == "domain"@ ==> legal_ident(fs[i].target_domain@)) by {
                        if i < n - 1 {
                            assert(fs[i] == p[i]);
                        }
                    }
                }
            },
        }
    }
}


/// A domain with variants is refused by `domain_registry!()` exactly when
/// its name is no legal identifier, it has more variants than `u16`
/// discriminants can number, or some variant's Pascal-case identifier is no
/// legal identifier.
pub proof fn law_registry_refuses_domain(name: Seq<char>, variants: Seq<Seq<char>>)
    ensures
        registry_domain_error(name, variants) is None <==> legal_ident(name) && variants.len()
            <= 65535 && forall|i: int|
            0 <= i < variants.len() ==> legal_ident(pascal_case(#[trigger] variants[i])),
{
    let ids = variants.map_values(|n: Seq<char>| pascal_case(n));
    lemma_first_illegal(ids);
    if legal_ident(name) && variants.len() <= 65535 {
        if registry_domain_error(name, variants) is None {
            assert forall|i: int| 0 <= i < variants.len() implies legal_ident(
                pascal_case(#[trigger] variants[i]),
            ) by {
                assert(ids[i] == pascal_case(variants[i]));
            }
        }
        if forall|i: int| 0 <= i < variants.len() ==> legal_ident(pascal_case(#[trigger] variants[i])) {
            match first_illegal(ids) {
                Some(i) => {
                    assert(ids[i] == pascal_case(variants[i]));
                },
                None => {},
            }
        }
    }
}

/// `domain_registry!()` succeeds exactly when every domain it keeps (one
/// whose variant query found variants) has a legal identifier for a name
/// and is one that `domain!(NAME)` generates from the same answer.
pub proof fn law_registry_succeeds_with_domain_macro(
    names: Seq<Seq<char>>,
    answers: Seq<Result<Vec<String>, String>>,
)
    requires
        names.len() == answers.len(),
    ensures
        registry_error(names, answers) is None <==> forall|k: int|
            0 <= k < names.len() && (#[trigger] answers[k] matches Ok(v) && v@.len() > 0)
                ==> legal_ident(names[k]) && domain_plan(names[k], answers[k]) is Ok,
    decreases names.len(),
{
    if names.len() > 0 {
        let pn = names.drop_last();
        let pa = answers.drop_last();
        let n = names.len();
        law_registry_succeeds_with_domain_macro(pn, pa);
        assert forall|k: int| 0 <= k < n - 1 implies #[trigger] answers[k] == pa[k] && names[k]
            == pn[k] by {}
        match answers.last() {
            Ok(v) => {
                if v@.len() > 0 {
                    let vs = crate::rows::strings(v@);
                    law_registry_refuses_domain(names.last(), vs);
                    let ids = vs.map_values(|x: Seq<char>| pascal_case(x));
                    lemma_first_illegal(ids);
                    if forall|i: int| 0 <= i < vs.len() ==> legal_ident(pascal_case(#[trigger] vs[i])) {
                        match first_illegal(ids) {
                            Some(i) => {
                                assert(ids[i] == pascal_case(vs[i]));
                            },
                            None => {},
                        }
                    }
                    if first_illegal(ids) is None {
                        assert forall|i: int| 0 <= i < vs.len() implies legal_ident(
                            pascal_case(#[trigger] vs[i]),
                        ) by {
                            assert(ids[i] == pascal_case(vs[i]));
                        }
                    }
                    assert(answers[n - 1] == answers.last());
                    assert(names[n - 1] == names.last());
                }
            },
            Err(_) => {},
        }
        if registry_error(names, answers) is None {
            assert forall|k: int|
                0 <= k < names.len() && (#[trigger] answers[k] matches Ok(v) && v@.len() > 0)
                implies legal_ident(names[k]) && domain_plan(names[k], answers[k]) is Ok by {
                if k < n - 1 {
                    assert(answers[k] == pa[k]);
                }
            }
        }
        if forall|k: int|
            0 <= k < names.len() && (#[trigger] answers[k] matches Ok(v) && v@.len() > 0)
                ==> legal_ident(names[k]) && domain_plan(names[k], answers[k]) is Ok {
            assert forall|k: int|
                0 <= k < pn.len() && (#[trigger] pa[k] matches Ok(v) && v@.len() > 0)
                implies legal_ident(pn[k]) && domain_plan(pn[k], pa[k]) is Ok by {
                assert(answers[k] == pa[k]);
            }
            assert(answers[n - 1] == answers.last());
        }
    }
}

/// On ASCII text the Pascal-case form is the ASCII one.
proof fn lemma_pascal_case_ascii(s: Seq<char>)
    requires
        is_ascii_text(s),
    ensures
        pascal_case(s) == ascii_pascal_case(s),
{
    assert forall|i: int| 0 <= i < s.len() implies pascal_piece(s, i) == ascii_pascal_piece(s, i) by {
        assert((s[i] as u32) < 128);
    }
    assert(Seq::new(s.len(), |i: int| pascal_piece(s, i)) =~= Seq::new(
        s.len(),
        |i: int| ascii_pascal_piece(s, i),
    ));
}

/// Each variant's identifier is the Pascal-case form of its name: the name
/// split at `_` and `-` into words, the first character of each word
/// upper-cased, the words joined. On an ASCII name it is the ASCII form,
/// holds no `_` or `-`, and has one character for each character of the
/// name that is not a separator (`long_name` gives `LongName`).
pub proof fn law_variant_ident_is_pascal_case(m: DomainModel, i: int)
    requires
        0 <= i < m.variants.len(),
    ensures
        variant_idents(m).len() == m.variants.len(),
        variant_idents(m)[i] == words(m.variants[i]).map_values(|w: Seq<char>| capitalize(w)).flatten(),
        is_ascii_text(m.variants[i]) ==> {
            &&& variant_idents(m)[i] == ascii_pascal_case(m.variants[i])
            &&& variant_idents(m)[i].len() == m.variants[i].len() - separator_count(m.variants[i])
            &&& forall|k: int|
                0 <= k < variant_idents(m)[i].len() ==> !is_separator(
                    #[trigger] variant_idents(m)[i][k],
                )
        },
{
    let v = m.variants[i];
    law_pascal_case_by_words(v);
    if is_ascii_text(v) {
        lemma_pascal_case_ascii(v);
        lemma_ascii_pascal_shape(v);
    }
}

/// The identifiers that `fold!` checks its arms against, for the same answer
/// to the variant query, are exactly those of the variants of the
/// enumeration `domain!` generates.
pub proof fn law_fold_expects_domain_idents(name: Seq<char>, answer: Result<Vec<String>, String>)
    requires
        domain_plan(name, answer) is Ok,
    ensures
        answer matches Ok(v) && variant_idents(domain_plan(name, answer)->Ok_0)
            == crate::rows::strings(v@).map_values(|n: Seq<char>| pascal_case(n)),
{
    match answer {
        Ok(v) => {
            let m = domain_plan(name, answer)->Ok_0;
            assert(m.variants == crate::rows::strings(v@));
            assert(variant_idents(m) =~= crate::rows::strings(v@).map_values(
                |n: Seq<char>| pascal_case(n),
            ));
        },
        Err(_) => {},
    }
}

/// A statement that `f` maps to a value leaves that value in `filter_map`.
proof fn lemma_filter_map_keeps<A, B>(s: Seq<A>, f: spec_fn(A) -> Option<B>, j: int)
    requires
        0 <= j < s.len(),
        f(s[j]) is Some,
    ensures
        s.filter_map(f).contains(f(s[j])->Some_0),
    decreases s.len(),
{
    let rest = s.drop_last();
    let y = f(s[j])->Some_0;
    if j == s.len() - 1 {
        let fm = rest.filter_map(f) + seq![y];
        assert(s.filter_map(f) == fm);
        assert(fm[fm.len() - 1] == y);
    } else {
        assert(s[j] == rest[j]);
        lemma_filter_map_keeps(rest, f, j);
        let k = choose|k: int| 0 <= k < rest.filter_map(f).len() && rest.filter_map(f)[k] == y;
        match f(s.last()) {
            Some(z) => {
                let fm = rest.filter_map(f) + seq![z];
                assert(fm[k] == y);
            },
            None => {},
        }
    }
}

/// The flattening of `n` pieces holds exactly what one of the pieces holds.
proof fn lemma_flatten_new_contains<A>(n: nat, f: spec_fn(int) -> Seq<A>, x: A)
    ensures
        Seq::new(n, f).flatten().contains(x) <==> exists|k: int|
            0 <= k < n && #[trigger] f(k).contains(x),
    decreases n,
{
    if n == 0 {
        assert(Seq::new(n, f) =~= Seq::<Seq<A>>::empty());
        assert(Seq::new(n, f).flatten() =~= Seq::<A>::empty());
    } else {
        let m = (n - 1) as nat;
        let p = Seq::new(m, f);
        lemma_flatten_new_contains(m, f, x);
        assert(Seq::new(n, f) =~= p.push(f(m as int)));
        p.lemma_flatten_push(f(m as int));
        vstd::seq_lib::lemma_seq_concat_contains_all_elements(p.flatten(), f(m as int), x);
        if exists|k: int| 0 <= k < n && #[trigger] f(k).contains(x) {
            let k = choose|k: int| 0 <= k < n && #[trigger] f(k).contains(x);
            if k < m {
                assert(p.flatten().contains(x));
            }
        }
    }
}

/// The run statements of one step are that step paired with the runnable
/// form of each of its script's statements that has one.
proof fn lemma_stage_statements_contains(
    stage: InitStage,
    stmts: Seq<Seq<char>>,
    x: (InitStage, Seq<char>),
)
    ensures
        stage_statements(stage, stmts).contains(x) <==> x.0 == stage && exists|j: int|
            0 <= j < stmts.len() && runnable_of(#[trigger] stmts[j]) == Some(x.1),
{
    let g = |st: Seq<char>| runnable_of(st);
    let fm = stmts.filter_map(g);
    let ss = fm.map_values(|t: Seq<char>| (stage, t));
    assert(stage_statements(stage, stmts) == ss);
    if ss.contains(x) {
        let i = choose|i: int| 0 <= i < ss.len() && ss[i] == x;
        assert(fm.contains(fm[i]));
        stmts.lemma_filter_map_contains(g, fm[i]);
        let t = choose|t: Seq<char>| #[trigger] stmts.contains(t) && g(t) == Some(fm[i]);
        let j = choose|j: int| 0 <= j < stmts.len() && stmts[j] == t;
        assert(runnable_of(stmts[j]) == Some(x.1));
    }
    if x.0 == stage && exists|j: int| 0 <= j < stmts.len() && runnable_of(#[trigger] stmts[j]) == Some(x.1) {
        let j = choose|j: int| 0 <= j < stmts.len() && runnable_of(#[trigger] stmts[j]) == Some(x.1);
        lemma_filter_map_keeps(stmts, g, j);
        let i = choose|i: int| 0 <= i < fm.len() && fm[i] == x.1;
        assert(ss[i] == x);
    }
}

/// Loading runs every runnable statement of every step's script, with its
/// step, and nothing else: an entry is in the load queue exactly when it
/// pairs the step at some position `k` of `stage_order()` with the trimmed
/// form of a statement of script `k` that is neither blank nor comments only.
pub proof fn law_init_queue_holds_every_runnable_statement(
    scripts: Seq<Seq<Seq<char>>>,
    x: (InitStage, Seq<char>),
)
    requires
        scripts.len() == stage_order().len(),
    ensures
        init_queue(scripts).contains(x) <==> exists|k: int, j: int|
            #![trigger scripts[k][j]]
            0 <= k < scripts.len() && 0 <= j < scripts[k].len() && x.0 == stage_order()[k]
                && runnable_of(scripts[k][j]) == Some(x.1),
{
    let f = |k: int| stage_statements(stage_order()[k], scripts[k]);
    lemma_flatten_new_contains(scripts.len(), f, x);
    if init_queue(scripts).contains(x) {
        let k = choose|k: int| 0 <= k < scripts.len() && #[trigger] f(k).contains(x);
        lemma_stage_statements_contains(stage_order()[k], scripts[k], x);
        let j = choose|j: int|
            0 <= j < scripts[k].len() && runnable_of(#[trigger] scripts[k][j]) == Some(x.1);
        assert(runnable_of(scripts[k][j]) == Some(x.1));
    }
    if exists|k: int, j: int|
        #![trigger scripts[k][j]]
        0 <= k < scripts.len() && 0 <= j < scripts[k].len() && x.0 == stage_order()[k]
            && runnable_of(scripts[k][j]) == Some(x.1) {
        let (k, j) = choose|k: int, j: int|
            #![trigger scripts[k][j]]
            0 <= k < scripts.len() && 0 <= j < scripts[k].len() && x.0 == stage_order()[k]
                && runnable_of(scripts[k][j]) == Some(x.1);
        lemma_stage_statements_contains(stage_order()[k], scripts[k], x);
        assert(runnable_of(scripts[k][j]) == Some(x.1));
        assert(f(k).contains(x));
    }
}

} // verus!
