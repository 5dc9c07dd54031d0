//! What each macro generates, decided from the database's answers: the
//! enumeration of a domain with its conversions, the registry of all
//! enumerations, the exhaustiveness check of a fold, the fields of a
//! product and the methods of a morphism, and the messages of the
//! compile errors reported instead.

use vstd::prelude::*;
use crate::db::{FieldInfo, MethodInfo};
use crate::ident::{is_legal_ident, legal_ident};
use crate::rows::strings;
use crate::search::{lemma_position_of, opt_index, position_in, position_of};
use crate::text::{is_separator, pascal_case, snake_case, str_eq, to_pascal_string, to_snake_case};

verus! {

broadcast use vstd::string::group_string_axioms;

// ---------------------------------------------------------------------------
// Messages
// ---------------------------------------------------------------------------

/// The macros of this crate.
pub enum MacroKind {
    Domain,
    Product,
    Fold,
    Morphism,
    DomainRegistry,
}

/// The name under which a macro is invoked.
pub open spec fn macro_name(k: MacroKind) -> Seq<char> {
    match k {
        MacroKind::Domain => "domain"@,
        MacroKind::Product => "product"@,
        MacroKind::Fold => "fold"@,
        MacroKind::Morphism => "morphism"@,
        MacroKind::DomainRegistry => "domain_registry"@,
    }
}

impl MacroKind {
    /// The name under which the macro is invoked.
    pub fn name(&self) -> (r: &'static str)
        ensures
            r@ == macro_name(*self),
    {
        match self {
            MacroKind::Domain => "domain",
            MacroKind::Product => "product",
            MacroKind::Fold => "fold",
            MacroKind::Morphism => "morphism",
            MacroKind::DomainRegistry => "domain_registry",
        }
    }
}

/// A compile error of macro `k` about nothing in particular:
/// `lojix::K!: DETAIL`.
pub open spec fn macro_error_text(k: MacroKind, detail: Seq<char>) -> Seq<char> {
    "lojix::"@ + macro_name(k) + "!: "@ + detail
}

/// A compile error of macro `k` about `subject`: `lojix::K!(SUBJECT): DETAIL`.
pub open spec fn subject_error_text(k: MacroKind, subject: Seq<char>, detail: Seq<char>) -> Seq<
    char,
> {
    "lojix::"@ + macro_name(k) + "!("@ + subject + "): "@ + detail
}

/// Builds `macro_error_text(kind, detail)`.
pub fn macro_error(kind: &MacroKind, detail: &str) -> (m: String)
    ensures
        m@ == macro_error_text(*kind, detail@),
{
    let mut m = String::from_str("lojix::");
    m.append(kind.name());
    m.append("!: ");
    m.append(detail);
    m
}

/// The compile error of macro `kind` when the database cannot be loaded.
pub fn load_failure_message(kind: &MacroKind, e: &str) -> (m: String)
    ensures
        m@ == macro_error_text(*kind, "failed to load DB: "@ + e@),
{
    let mut d = String::from_str("failed to load DB: ");
    d.append(e);
    macro_error(kind, d.as_str())
}

/// Builds `subject_error_text(kind, subject, detail)`.
pub fn subject_error(kind: &MacroKind, subject: &str, detail: &str) -> (m: String)
    ensures
        m@ == subject_error_text(*kind, subject@, detail@),
{
    let mut m = String::from_str("lojix::");
    m.append(kind.name());
    m.append("!(");
    m.append(subject);
    m.append("): ");
    m.append(detail);
    m
}

// ---------------------------------------------------------------------------
// Domain enumerations
// ---------------------------------------------------------------------------

/// An enumeration generated from a domain, by value: its type name and the
/// names of its variants, in discriminant order.
pub struct DomainModel {
    pub name: Seq<char>,
    pub variants: Seq<Seq<char>>,
}

/// The Rust identifiers of the variants of `m`.
pub open spec fn variant_idents(m: DomainModel) -> Seq<Seq<char>> {
    m.variants.map_values(|v: Seq<char>| pascal_case(v))
}

/// The variant with discriminant `d`, if there is one.
pub open spec fn from_discriminant_of(m: DomainModel, d: int) -> Option<int> {
    if 0 <= d < m.variants.len() {
        Some(d)
    } else {
        None
    }
}

/// The variant that `s` names, or the error message of the generated
/// `FromStr` implementation.
pub open spec fn parse_variant(m: DomainModel, s: Seq<char>) -> Result<int, Seq<char>> {
    match position_of(m.variants, s) {
        Some(i) => Ok(i),
        None => Err("unknown "@ + m.name + " variant: "@ + s),
    }
}

/// An index or an error message, by value.
pub open spec fn index_result(r: Result<usize, String>) -> Result<int, Seq<char>> {
    match r {
        Ok(i) => Ok(i as int),
        Err(e) => Err(e@),
    }
}

/// The enumeration generated from a domain: variant `i` has the `i`-th
/// name of the domain, in the order the database gives them, the Pascal-case
/// form of that name as its identifier, and `i` as its discriminant.
pub struct DomainEnum {
    name: String,
    variants: Vec<String>,
}

impl View for DomainEnum {
    type V = DomainModel;

    closed spec fn view(&self) -> DomainModel {
        DomainModel { name: self.name@, variants: strings(self.variants@) }
    }
}

impl DomainEnum {
    /// Discriminants are `u16`: every variant has one.
    #[verifier::type_invariant]
    closed spec fn discriminants_fit(self) -> bool {
        self.variants@.len() <= 65535
    }

    /// The enumeration named `name` with the variants `variants`, in order.
    pub fn new(name: &str, variants: Vec<String>) -> (d: DomainEnum)
        requires
            variants@.len() <= 65535,
        ensures
            d@ == (DomainModel { name: name@, variants: strings(variants@) }),
    {
        DomainEnum { name: String::from_str(name), variants }
    }

    /// The type name of the enumeration.
    pub fn enum_name(&self) -> (r: &str)
        ensures
            r@ == self@.name,
    {
        self.name.as_str()
    }

    /// The number of variants (`COUNT`).
    pub fn count(&self) -> (n: usize)
        ensures
            n == self@.variants.len(),
            n <= 65535,
    {
        proof {
            use_type_invariant(self);
        }
        self.variants.len()
    }

    /// The discriminant of variant `v` (`discriminant()`).
    pub fn discriminant(&self, v: usize) -> (d: u16)
        requires
            v < self@.variants.len(),
        ensures
            d == v,
    {
        proof {
            use_type_invariant(self);
        }
        v as u16
    }

    /// The variant with discriminant `d` (`from_discriminant()`).
    pub fn from_discriminant(&self, d: u16) -> (r: Option<usize>)
        ensures
            opt_index(r) == from_discriminant_of(self@, d as int),
    {
        if (d as usize) < self.variants.len() {
            Some(d as usize)
        } else {
            None
        }
    }

    /// The name of variant `v` (`name()`, and what `Display` writes).
    pub fn name(&self, v: usize) -> (r: &str)
        requires
            v < self@.variants.len(),
        ensures
            r@ == self@.variants[v as int],
    {
        self.variants[v].as_str()
    }

    /// The Rust identifier of variant `v`.
    pub fn ident(&self, v: usize) -> (r: String)
        requires
            v < self@.variants.len(),
        ensures
            r@ == variant_idents(self@)[v as int],
            r@ == pascal_case(self@.variants[v as int]),
            forall|k: int| 0 <= k < r@.len() ==> !is_separator(#[trigger] r@[k]),
    {
        to_pascal_string(self.variants[v].as_str())
    }

    /// The Rust identifiers of all variants, in order.
    pub fn idents(&self) -> (r: Vec<String>)
        ensures
            strings(r@) == variant_idents(self@),
            forall|i: int| 0 <= i < r@.len() ==> r@[i]@ == pascal_case(self@.variants[i]),
            forall|i: int, k: int|
                0 <= i < r@.len() && 0 <= k < r@[i]@.len() ==> !is_separator(#[trigger] r@[i]@[k]),
    {
        let mut r: Vec<String> = Vec::new();
        let mut i: usize = 0;
        while i < self.variants.len()
            invariant
                i <= self@.variants.len(),
                strings(r@) == variant_idents(self@).take(i as int),
                forall|j: int| 0 <= j < r@.len() ==> r@[j]@ == pascal_case(self@.variants[j]),
                forall|j: int, k: int|
                    0 <= j < r@.len() && 0 <= k < r@[j]@.len() ==> !is_separator(#[trigger] r@[j]@[k]),
            decreases self@.variants.len() - i,
        {
            let id = to_pascal_string(self.variants[i].as_str());
            let ghost before = r@;
            r.push(id);
            assert(strings(r@) == strings(before).push(id@));
            assert(variant_idents(self@).take(i + 1) == variant_idents(self@).take(i as int).push(
                variant_idents(self@)[i as int],
            ));
            i = i + 1;
        }
        assert(variant_idents(self@).take(i as int) == variant_idents(self@));
        r
    }

    /// All variants, in discriminant order (`all()`).
    pub fn all(&self) -> (r: Vec<usize>)
        ensures
            r@.len() == self@.variants.len(),
            forall|i: int| 0 <= i < r@.len() ==> r@[i] == i,
    {
        let mut r: Vec<usize> = Vec::new();
        let mut i: usize = 0;
        while i < self.variants.len()
            invariant
                i <= self@.variants.len(),
                r@.len() == i,
                forall|j: int| 0 <= j < i ==> r@[j] == j,
            decreases self@.variants.len() - i,
        {
            r.push(i);
            i = i + 1;
        }
        r
    }

    /// The variant that `s` names (`FromStr`): the first variant whose name
    /// is `s`, else the error `unknown NAME variant: S`.
    pub fn from_str(&self, s: &str) -> (r: Result<usize, String>)
        ensures
            index_result(r) == parse_variant(self@, s@),
    {
        match position_in(&self.variants, s) {
            Some(i) => Ok(i),
            None => {
                let mut m = String::from_str("unknown ");
                m.append(self.name.as_str());
                m.append(" variant: ");
                m.append(s);
                Err(m)
            },
        }
    }

    /// The variant whose identifier is `ident` (the first one, if several
    /// share it).
    pub fn variant(&self, ident: &str) -> (r: Option<usize>)
        ensures
            opt_index(r) == position_of(variant_idents(self@), ident@),
    {
        let ids = self.idents();
        position_in(&ids, ident)
    }
}

/// The first of `ids` that is no legal identifier, by index.
pub open spec fn first_illegal(ids: Seq<Seq<char>>) -> Option<int>
    decreases ids.len(),
{
    if ids.len() == 0 {
        None
    } else {
        match first_illegal(ids.drop_last()) {
            Some(i) => Some(i),
            None => if !legal_ident(ids.last()) {
                Some(ids.len() - 1)
            } else {
                None
            },
        }
    }
}

/// `first_illegal` finds the first string that is no identifier, and finds
/// one exactly when there is one.
pub proof fn lemma_first_illegal(ids: Seq<Seq<char>>)
    ensures
        match first_illegal(ids) {
            Some(i) => 0 <= i < ids.len() && !legal_ident(ids[i]),
            None => forall|j: int| 0 <= j < ids.len() ==> legal_ident(#[trigger] ids[j]),
        },
    decreases ids.len(),
{
    if ids.len() > 0 {
        let p = ids.drop_last();
        lemma_first_illegal(p);
        match first_illegal(p) {
            Some(i) => {
                assert(ids[i] == p[i]);
            },
            None => {
                assert forall|j: int| 0 <= j < ids.len() - 1 implies legal_ident(#[trigger] ids[j]) by {
                    assert(ids[j] == p[j]);
                }
            },
        }
    }
}

/// A first illegal identifier in a prefix is the first in the whole.
proof fn lemma_first_illegal_prefix(ids: Seq<Seq<char>>, i: int)
    requires
        0 <= i <= ids.len(),
        first_illegal(ids.take(i)) is Some,
    ensures
        first_illegal(ids) == first_illegal(ids.take(i)),
    decreases ids.len() - i,
{
    if i < ids.len() {
        assert(ids.take(i + 1).drop_last() == ids.take(i));
        lemma_first_illegal_prefix(ids, i + 1);
    } else {
        assert(ids.take(i) == ids);
    }
}

/// The first of `ids` that is no legal identifier, by index.
fn first_illegal_in(ids: &Vec<String>) -> (r: Option<usize>)
    ensures
        opt_index(r) == first_illegal(strings(ids@)),
{
    let ghost ss = strings(ids@);
    let mut i: usize = 0;
    assert(ss.take(0) =~= Seq::<Seq<char>>::empty());
    while i < ids.len()
        invariant
            ss == strings(ids@),
            i <= ids@.len(),
            first_illegal(ss.take(i as int)) is None,
        decreases ids@.len() - i,
    {
        assert(ss.take(i + 1).drop_last() == ss.take(i as int));
        assert(ss.take(i + 1).last() == ids@[i as int]@);
        if !is_legal_ident(ids[i].as_str()) {
            proof {
                lemma_first_illegal_prefix(ss, i + 1);
            }
            return Some(i);
        }
        i = i + 1;
    }
    assert(ss.take(ids@.len() as int) == ss);
    None
}

/// The compile error for a domain with more variants than `u16`
/// discriminants can number.
pub open spec fn too_many_variants_detail() -> Seq<char> {
    "more variants than u16 discriminants"@
}

/// What `domain!(NAME)` generates from the answer to the variant query of
/// `NAME`: the enumeration of its variants, or the compile error when the
/// query failed, found no variant, found more than `u16` discriminants can
/// number, or a variant's identifier is no legal identifier (the first such,
/// in variant order).
pub open spec fn domain_plan(name: Seq<char>, variants: Result<Vec<String>, String>) -> Result<
    DomainModel,
    Seq<char>,
> {
    match variants {
        Err(e) => Err(subject_error_text(MacroKind::Domain, name, e@)),
        Ok(v) => if v@.len() == 0 {
            Err(subject_error_text(MacroKind::Domain, name, "no variants found"@))
        } else if v@.len() > 65535 {
            Err(subject_error_text(MacroKind::Domain, name, too_many_variants_detail()))
        } else {
            let ids = strings(v@).map_values(|n: Seq<char>| pascal_case(n));
            match first_illegal(ids) {
                Some(i) => Err(subject_error_text(MacroKind::Domain, name, bad_ident_detail(ids[i]))),
                None => Ok(DomainModel { name, variants: strings(v@) }),
            }
        },
    }
}

/// An enumeration or an error message, by value.
pub open spec fn domain_result(r: Result<DomainEnum, String>) -> Result<DomainModel, Seq<char>> {
    match r {
        Ok(d) => Ok(d@),
        Err(e) => Err(e@),
    }
}

/// Decides what `domain!(NAME)` generates (see `domain_plan`).
pub fn plan_domain(name: &str, variants: Result<Vec<String>, String>) -> (r: Result<
    DomainEnum,
    String,
>)
    ensures
        domain_result(r) == domain_plan(name@, variants),
{
    match variants {
        Err(e) => Err(subject_error(&MacroKind::Domain, name, e.as_str())),
        Ok(v) => {
            if v.len() == 0 {
                Err(subject_error(&MacroKind::Domain, name, "no variants found"))
            } else if v.len() > 65535 {
                Err(subject_error(&MacroKind::Domain, name, "more variants than u16 discriminants"))
            } else {
                let d = DomainEnum::new(name, v);
                let ids = d.idents();
                proof {
                    assert(variant_idents(d@) =~= strings(v@).map_values(
                        |n: Seq<char>| pascal_case(n),
                    ));
                    lemma_first_illegal(strings(ids@));
                }
                match first_illegal_in(&ids) {
                    Some(k) => Err(bad_ident_message(&MacroKind::Domain, name, ids[k].as_str())),
                    None => Ok(d),
                }
            }
        },
    }
}

// ---------------------------------------------------------------------------
// The registry of all enumerations
// ---------------------------------------------------------------------------

/// The enumerations generated by `domain_registry!()`, in the order the
/// registry lists their domains.
pub struct Registry {
    domains: Vec<DomainEnum>,
}

/// The type names of the enumerations of a registry (`DOMAIN_NAMES`).
pub open spec fn registry_names(r: Seq<DomainModel>) -> Seq<Seq<char>> {
    r.map_values(|m: DomainModel| m.name)
}

/// What `translate_domain(NAME, D)` answers: the name of the variant with
/// discriminant `D` of the first enumeration named `NAME`, if both exist.
pub open spec fn translate_of(r: Seq<DomainModel>, domain: Seq<char>, d: int) -> Option<Seq<char>> {
    match position_of(registry_names(r), domain) {
        Some(k) => match from_discriminant_of(r[k], d) {
            Some(v) => Some(r[k].variants[v]),
            None => None,
        },
        None => None,
    }
}

impl View for Registry {
    type V = Seq<DomainModel>;

    closed spec fn view(&self) -> Seq<DomainModel> {
        self.domains@.map_values(|d: DomainEnum| d@)
    }
}

impl Registry {
    /// The registry with no enumeration.
    pub fn new() -> (r: Registry)
        ensures
            r@ == Seq::<DomainModel>::empty(),
    {
        let r = Registry { domains: Vec::new() };
        assert(r@ =~= Seq::<DomainModel>::empty());
        r
    }

    /// Takes the answer to the variant query of domain `name`: a domain whose
    /// query failed or found no variant is left out; any other becomes the
    /// next enumeration, unless it cannot be generated
    /// (`registry_domain_error`), which is a compile error and leaves the
    /// registry as it was.
    pub fn add_domain(&mut self, name: &str, variants: Result<Vec<String>, String>) -> (r: Result<
        (),
        String,
    >)
        ensures
            match variants {
                Ok(v) => if v@.len() > 0 {
                    match registry_domain_error(name@, strings(v@)) {
                        Some(d) => r matches Err(m) && m@ == subject_error_text(
                            MacroKind::DomainRegistry,
                            name@,
                            d,
                        ) && final(self)@ == old(self)@,
                        None => r is Ok && final(self)@ == old(self)@.push(
                            DomainModel { name: name@, variants: strings(v@) },
                        ),
                    }
                } else {
                    r is Ok && final(self)@ == old(self)@
                },
                Err(_) => r is Ok && final(self)@ == old(self)@,
            },
    {
        match variants {
            Ok(v) => {
                if v.len() > 0 {
                    if !is_legal_ident(name) {
                        return Err(bad_ident_message(&MacroKind::DomainRegistry, name, name));
                    }
                    if v.len() > 65535 {
                        return Err(
                            subject_error(
                                &MacroKind::DomainRegistry,
                                name,
                                "more variants than u16 discriminants",
                            ),
                        );
                    }
                    let d = DomainEnum::new(name, v);
                    let ids = d.idents();
                    proof {
                        assert(variant_idents(d@) =~= strings(v@).map_values(
                            |n: Seq<char>| pascal_case(n),
                        ));
                        lemma_first_illegal(strings(ids@));
                    }
                    match first_illegal_in(&ids) {
                        Some(k) => {
                            return Err(
                                bad_ident_message(
                                    &MacroKind::DomainRegistry,
                                    name,
                                    ids[k].as_str(),
                                ),
                            );
                        },
                        None => {},
                    }
                    let ghost before = self.domains@;
                    self.domains.push(d);
                    assert(self.domains@.map_values(|d: DomainEnum| d@) == before.map_values(
                        |d: DomainEnum| d@,
                    ).push(d@));
                }
                Ok(())
            },
            Err(_) => Ok(()),
        }
    }

    /// The number of enumerations (`DOMAIN_COUNT`).
    pub fn domain_count(&self) -> (n: usize)
        ensures
            n == self@.len(),
    {
        self.domains.len()
    }

    /// The type names of the enumerations, in order (`DOMAIN_NAMES`).
    pub fn domain_names(&self) -> (v: Vec<String>)
        ensures
            strings(v@) == registry_names(self@),
    {
        let mut v: Vec<String> = Vec::new();
        let mut i: usize = 0;
        while i < self.domains.len()
            invariant
                i <= self@.len(),
                strings(v@) == registry_names(self@).take(i as int),
            decreases self@.len() - i,
        {
            let n = String::from_str(self.domains[i].enum_name());
            let ghost before = v@;
            v.push(n);
            assert(strings(v@) == strings(before).push(n@));
            assert(registry_names(self@).take(i + 1) == registry_names(self@).take(i as int).push(
                registry_names(self@)[i as int],
            ));
            i = i + 1;
        }
        assert(registry_names(self@).take(i as int) == registry_names(self@));
        v
    }

    /// The enumeration at position `k`.
    pub fn domain_at(&self, k: usize) -> (d: &DomainEnum)
        requires
            k < self@.len(),
        ensures
            d@ == self@[k as int],
    {
        &self.domains[k]
    }

    /// The first enumeration named `domain`, by position.
    pub fn position(&self, domain: &str) -> (r: Option<usize>)
        ensures
            opt_index(r) == position_of(registry_names(self@), domain@),
    {
        let names = self.domain_names();
        position_in(&names, domain)
    }

    /// Translates a discriminant of enumeration `domain` to the variant's
    /// name (`translate_domain()`).
    pub fn translate_domain(&self, domain: &str, discriminant: u16) -> (r: Option<String>)
        ensures
            crate::rows::opt_view(r) == translate_of(self@, domain@, discriminant as int),
    {
        match self.position(domain) {
            Some(k) => {
                proof {
                    lemma_position_of(registry_names(self@), domain@);
                }
                let d = &self.domains[k];
                match d.from_discriminant(discriminant) {
                    Some(v) => Some(String::from_str(d.name(v))),
                    None => None,
                }
            },
            None => None,
        }
    }
}

/// The registry built from the enumeration domains `names`, in order, and
/// the answers to their variant queries, one per name: a domain whose query
/// failed or found no variant is left out, every other becomes the next
/// enumeration.
pub open spec fn registry_of(names: Seq<Seq<char>>, answers: Seq<Result<Vec<String>, String>>) -> Seq<
    DomainModel,
>
    decreases names.len(),
{
    if names.len() == 0 || answers.len() == 0 {
        Seq::empty()
    } else {
        let prev = registry_of(names.drop_last(), answers.drop_last());
        match answers.last() {
            Ok(v) => if v@.len() > 0 {
                prev.push(DomainModel { name: names.last(), variants: strings(v@) })
            } else {
                prev
            },
            Err(_) => prev,
        }
    }
}

/// Why `domain_registry!()` cannot generate the enumeration of domain
/// `name` with `variants`, if it cannot: its name is no legal identifier, it
/// has more variants than `u16` discriminants can number, or one of its
/// variant identifiers (the first such) is no legal identifier.
pub open spec fn registry_domain_error(name: Seq<char>, variants: Seq<Seq<char>>) -> Option<
    Seq<char>,
> {
    if !legal_ident(name) {
        Some(bad_ident_detail(name))
    } else if variants.len() > 65535 {
        Some(too_many_variants_detail())
    } else {
        let ids = variants.map_values(|n: Seq<char>| pascal_case(n));
        match first_illegal(ids) {
            Some(i) => Some(bad_ident_detail(ids[i])),
            None => None,
        }
    }
}

/// The compile error of `domain_registry!()` for the domains `names` and the
/// answers to their variant queries: that of the first domain with variants
/// whose enumeration cannot be generated (`registry_domain_error`), if any.
pub open spec fn registry_error(names: Seq<Seq<char>>, answers: Seq<Result<Vec<String>, String>>) -> Option<
    Seq<char>,
>
    decreases names.len(),
{
    if names.len() == 0 || answers.len() == 0 {
        None
    } else {
        match registry_error(names.drop_last(), answers.drop_last()) {
            Some(m) => Some(m),
            None => match answers.last() {
                Ok(v) => if v@.len() > 0 {
                    match registry_domain_error(names.last(), strings(v@)) {
                        Some(d) => Some(subject_error_text(MacroKind::DomainRegistry, names.last(), d)),
                        None => None,
                    }
                } else {
                    None
                },
                Err(_) => None,
            },
        }
    }
}

/// Once the registry of a prefix of the domains has an error, that of every
/// longer prefix has the same.
proof fn lemma_registry_error_extends(
    names: Seq<Seq<char>>,
    answers: Seq<Result<Vec<String>, String>>,
    i: int,
)
    requires
        names.len() == answers.len(),
        0 <= i <= names.len(),
        registry_error(names.take(i), answers.take(i)) is Some,
    ensures
        registry_error(names, answers) == registry_error(names.take(i), answers.take(i)),
    decreases names.len() - i,
{
    if i < names.len() {
        assert(names.take(i + 1).drop_last() == names.take(i));
        assert(answers.take(i + 1).drop_last() == answers.take(i));
        lemma_registry_error_extends(names, answers, i + 1);
    } else {
        assert(names.take(i) == names);
        assert(answers.take(i) == answers);
    }
}

/// The names of the domains whose answer is a non-empty list of variants,
/// in order.
pub open spec fn kept_domain_names(names: Seq<Seq<char>>, answers: Seq<Result<Vec<String>, String>>) -> Seq<
    Seq<char>,
>
    decreases names.len(),
{
    if names.len() == 0 || answers.len() == 0 {
        Seq::empty()
    } else {
        let prev = kept_domain_names(names.drop_last(), answers.drop_last());
        if answers.last() matches Ok(v) && v@.len() > 0 {
            prev.push(names.last())
        } else {
            prev
        }
    }
}

impl Registry {
    /// Builds the registry of `domain_registry!()` from the enumeration
    /// domains and the answers to their variant queries, one per domain; the
    /// first domain whose name or a variant identifier is no legal
    /// identifier makes it a compile error.
    pub fn from_answers(names: &Vec<String>, answers: Vec<Result<Vec<String>, String>>) -> (r:
        Result<Registry, String>)
        requires
            names@.len() == answers@.len(),
        ensures
            match registry_error(strings(names@), answers@) {
                Some(m) => r matches Err(e) && e@ == m,
                None => r matches Ok(reg) && reg@ == registry_of(strings(names@), answers@),
            },
    {
        let ghost all = answers@;
        let ghost ns = strings(names@);
        let mut rest = answers;
        let mut reg = Registry::new();
        let mut i: usize = 0;
        assert(ns.take(0) =~= Seq::<Seq<char>>::empty());
        assert(rest@.skip(0) == rest@);
        while i < names.len()
            invariant
                ns == strings(names@),
                all == answers@,
                names@.len() == all.len(),
                i <= names@.len(),
                rest@ == all.skip(i as int),
                registry_error(ns.take(i as int), all.take(i as int)) is None,
                reg@ == registry_of(ns.take(i as int), all.take(i as int)),
            decreases names@.len() - i,
        {
            let a = rest.remove(0);
            assert(a == all[i as int]);
            assert(all.skip(i as int).remove(0) == all.skip(i + 1));
            assert(ns.take(i + 1).drop_last() == ns.take(i as int));
            assert(all.take(i + 1).drop_last() == all.take(i as int));
            assert(ns.take(i + 1).last() == names@[i as int]@);
            assert(all.take(i + 1).last() == a);
            let added = reg.add_domain(names[i].as_str(), a);
            match added {
                Err(m) => {
                    proof {
                        assert(registry_error(ns.take(i + 1), all.take(i + 1)) == Some(m@));
                        lemma_registry_error_extends(ns, all, i + 1);
                    }
                    return Err(m);
                },
                Ok(_) => {},
            }
            i = i + 1;
        }
        assert(ns.take(i as int) == ns);
        assert(all.take(i as int) == all);
        Ok(reg)
    }
}

// ---------------------------------------------------------------------------
// Folds
// ---------------------------------------------------------------------------

/// The first element of `s` that does not occur in `other`, by index.
pub open spec fn first_absent(s: Seq<Seq<char>>, other: Seq<Seq<char>>) -> Option<int>
    decreases s.len(),
{
    if s.len() == 0 {
        None
    } else {
        match first_absent(s.drop_last(), other) {
            Some(i) => Some(i),
            None => if !other.contains(s.last()) {
                Some(s.len() - 1)
            } else {
                None
            },
        }
    }
}

/// The exhaustiveness check of `fold!(DOMAIN, ...)` with arms `arms` over a
/// domain whose variant identifiers are `expected`: the first variant
/// without an arm is reported, else the first arm that names no variant.
pub open spec fn fold_check(domain: Seq<char>, expected: Seq<Seq<char>>, arms: Seq<Seq<char>>) -> Result<
    (),
    Seq<char>,
> {
    match first_absent(expected, arms) {
        Some(i) => Err(
            subject_error_text(
                MacroKind::Fold,
                domain,
                "missing arm for variant `"@ + expected[i] + "`"@,
            ),
        ),
        None => match first_absent(arms, expected) {
            Some(j) => Err(
                subject_error_text(
                    MacroKind::Fold,
                    domain,
                    "unknown variant `"@ + arms[j] + "`"@,
                ),
            ),
            None => Ok(()),
        },
    }
}

/// `first_absent` finds the first element that does not occur, and finds
/// one exactly when there is one.
pub proof fn lemma_first_absent(s: Seq<Seq<char>>, other: Seq<Seq<char>>)
    ensures
        match first_absent(s, other) {
            Some(i) => 0 <= i < s.len() && !other.contains(s[i]) && forall|j: int|
                0 <= j < i ==> other.contains(#[trigger] s[j]),
            None => forall|j: int| 0 <= j < s.len() ==> other.contains(#[trigger] s[j]),
        },
    decreases s.len(),
{
    if s.len() > 0 {
        let p = s.drop_last();
        lemma_first_absent(p, other);
        match first_absent(p, other) {
            Some(i) => {
                assert(s[i] == p[i]);
                assert forall|j: int| 0 <= j < i implies other.contains(#[trigger] s[j]) by {
                    assert(s[j] == p[j]);
                }
            },
            None => {
                assert forall|j: int| 0 <= j < s.len() - 1 implies other.contains(#[trigger] s[j]) by {
                    assert(s[j] == p[j]);
                }
            },
        }
    }
}

/// The first element of `s` that does not occur in `other`, by index.
fn first_absent_in(s: &Vec<String>, other: &Vec<String>) -> (r: Option<usize>)
    ensures
        opt_index(r) == first_absent(strings(s@), strings(other@)),
{
    let ghost ss = strings(s@);
    let ghost os = strings(other@);
    let mut i: usize = 0;
    assert(ss.take(0) =~= Seq::<Seq<char>>::empty());
    while i < s.len()
        invariant
            ss == strings(s@),
            os == strings(other@),
            i <= s@.len(),
            first_absent(ss.take(i as int), os) is None,
        decreases s@.len() - i,
    {
        assert(ss.take(i + 1).drop_last() == ss.take(i as int));
        assert(ss.take(i + 1).last() == s@[i as int]@);
        let found = position_in(other, s[i].as_str());
        proof {
            lemma_position_of(os, s@[i as int]@);
        }
        if found.is_none() {
            proof {
                lemma_first_absent_prefix(ss, i + 1, os);
            }
            return Some(i);
        }
        i = i + 1;
    }
    assert(ss.take(s@.len() as int) == ss);
    None
}

/// A first absent element in a prefix is the first absent element in the whole.
proof fn lemma_first_absent_prefix(s: Seq<Seq<char>>, i: int, other: Seq<Seq<char>>)
    requires
        0 <= i <= s.len(),
        first_absent(s.take(i), other) is Some,
    ensures
        first_absent(s, other) == first_absent(s.take(i), other),
    decreases s.len() - i,
{
    if i < s.len() {
        assert(s.take(i + 1).drop_last() == s.take(i));
        lemma_first_absent_prefix(s, i + 1, other);
    } else {
        assert(s.take(i) == s);
    }
}

/// A fold that passed the exhaustiveness check: its arms, by the variant
/// identifier each names, in the order they are written.
pub struct FoldPlan {
    arms: Vec<String>,
}

impl View for FoldPlan {
    type V = Seq<Seq<char>>;

    closed spec fn view(&self) -> Seq<Seq<char>> {
        strings(self.arms@)
    }
}

impl FoldPlan {
    /// The arms, by the variant identifier each names, in order.
    pub fn arms(&self) -> (v: &Vec<String>)
        ensures
            strings(v@) == self@,
    {
        &self.arms
    }

    /// The arm that the generated `match` takes for the variant with
    /// identifier `ident`: the first arm naming it.
    pub fn arm_for(&self, ident: &str) -> (r: Option<usize>)
        ensures
            opt_index(r) == position_of(self@, ident@),
    {
        position_in(&self.arms, ident)
    }
}

/// Decides what `fold!(DOMAIN, value, { ARM => body, ... })` generates, from
/// the answer to the variant query of `DOMAIN` and the variant identifiers
/// that the arms name, in order: a `match` with the arms as written, or the
/// compile error when the query failed, a variant has no arm or an arm names
/// no variant.
pub fn plan_fold(domain: &str, variants: Result<Vec<String>, String>, arms: Vec<String>) -> (r:
    Result<FoldPlan, String>)
    ensures
        match variants {
            Err(e) => r matches Err(m) && m@ == subject_error_text(MacroKind::Fold, domain@, e@),
            Ok(v) => match fold_check(
                domain@,
                strings(v@).map_values(|n: Seq<char>| pascal_case(n)),
                strings(arms@),
            ) {
                Err(msg) => r matches Err(m) && m@ == msg,
                Ok(_) => r matches Ok(p) && p@ == strings(arms@),
            },
        },
{
    match variants {
        Err(e) => Err(subject_error(&MacroKind::Fold, domain, e.as_str())),
        Ok(v) => {
            let mut expected: Vec<String> = Vec::new();
            let mut i: usize = 0;
            let ghost want = strings(v@).map_values(|n: Seq<char>| pascal_case(n));
            while i < v.len()
                invariant
                    i <= v@.len(),
                    want == strings(v@).map_values(|n: Seq<char>| pascal_case(n)),
                    strings(expected@) == want.take(i as int),
                decreases v@.len() - i,
            {
                let id = to_pascal_string(v[i].as_str());
                let ghost before = expected@;
                expected.push(id);
                assert(strings(expected@) == strings(before).push(id@));
                assert(want.take(i + 1) == want.take(i as int).push(want[i as int]));
                i = i + 1;
            }
            assert(want.take(i as int) == want);
            let missing = first_absent_in(&expected, &arms);
            proof {
                lemma_first_absent(strings(expected@), strings(arms@));
                lemma_first_absent(strings(arms@), strings(expected@));
            }
            match missing {
                Some(k) => {
                    let mut d = String::from_str("missing arm for variant `");
                    d.append(expected[k].as_str());
                    d.append("`");
                    return Err(subject_error(&MacroKind::Fold, domain, d.as_str()));
                },
                None => {},
            }
            let unknown = first_absent_in(&arms, &expected);
            match unknown {
                Some(k) => {
                    let mut d = String::from_str("unknown variant `");
                    d.append(arms[k].as_str());
                    d.append("`");
                    Err(subject_error(&MacroKind::Fold, domain, d.as_str()))
                },
                None => Ok(FoldPlan { arms }),
            }
        },
    }
}

// ---------------------------------------------------------------------------
// Products
// ---------------------------------------------------------------------------

/// The Rust type of a product field.
pub enum RustType {
    /// The enumeration of the named domain.
    Domain(String),
    /// `bool`.
    Bool,
    /// `TypedInt`.
    TypedInt,
    /// `Vec<u8>`.
    Bytes,
}

/// The Rust type that a field of kind `kind` gets: the target domain's
/// enumeration for `domain`, `bool` for `bool`, `TypedInt` for `int`, and
/// `Vec<u8>` for `data` and any other kind.
pub open spec fn rust_type_of(t: RustType, kind: Seq<char>, target_domain: Seq<char>) -> bool {
    if kind == "domain"@ {
        t matches RustType::Domain(d) && d@ == target_domain
    } else if kind == "bool"@ {
        t is Bool
    } else if kind == "int"@ {
        t is TypedInt
    } else {
        t is Bytes
    }
}

/// The Rust type of a field of kind `kind` (see `rust_type_of`). A domain
/// kind names its target's enumeration, so the target must be an identifier.
pub fn field_type_to_rust_type(kind: &str, target_domain: &str) -> (t: RustType)
    requires
        kind@ == "domain"@ ==> legal_ident(target_domain@),
    ensures
        rust_type_of(t, kind@, target_domain@),
{
    if str_eq(kind, "domain") {
        RustType::Domain(String::from_str(target_domain))
    } else if str_eq(kind, "bool") {
        RustType::Bool
    } else if str_eq(kind, "int") {
        RustType::TypedInt
    } else {
        RustType::Bytes
    }
}

/// One field of a generated product struct.
pub struct ProductField {
    pub name: String,
    pub ty: RustType,
}

/// A generated product struct: its name and its fields, in column order.
pub struct ProductPlan {
    pub name: String,
    pub fields: Vec<ProductField>,
}

/// The first identifier among the fields that is no legal identifier, in
/// field order: a field's name, else the target domain of a domain-kind field.
pub open spec fn first_bad_ident(fs: Seq<FieldInfo>) -> Option<Seq<char>>
    decreases fs.len(),
{
    if fs.len() == 0 {
        None
    } else {
        match first_bad_ident(fs.drop_last()) {
            Some(x) => Some(x),
            None => {
                let f = fs.last();
                if !legal_ident(f.name@) {
                    Some(f.name@)
                } else if f.kind@ == "domain"@ && !legal_ident(f.target_domain@) {
                    Some(f.target_domain@)
                } else {
                    None
                }
            },
        }
    }
}

/// The compile error for a string that should be an identifier and is not.
pub open spec fn bad_ident_detail(x: Seq<char>) -> Seq<char> {
    "`"@ + x + "` is not a valid identifier"@
}

/// Builds `bad_ident_detail(x)`.
fn bad_ident_message(kind: &MacroKind, subject: &str, x: &str) -> (m: String)
    ensures
        m@ == subject_error_text(*kind, subject@, bad_ident_detail(x@)),
{
    let mut d = String::from_str("`");
    d.append(x);
    d.append("` is not a valid identifier");
    subject_error(kind, subject, d.as_str())
}

/// Decides what `product!(NAME)` generates from the decoded fields of
/// `NAME`: a struct with one field per column, named after the column and
/// typed by its kind, or the compile error when decoding failed, found no
/// field, or a field name or domain target is no identifier (the first one,
/// in field order, is reported).
pub fn plan_product(name: &str, fields: Result<Vec<FieldInfo>, String>) -> (r: Result<
    ProductPlan,
    String,
>)
    ensures
        match fields {
            Err(e) => r matches Err(m) && m@ == subject_error_text(MacroKind::Product, name@, e@),
            Ok(fs) => if fs@.len() == 0 {
                r matches Err(m) && m@ == subject_error_text(
                    MacroKind::Product,
                    name@,
                    "no fields found"@,
                )
            } else {
                match first_bad_ident(fs@) {
                    Some(x) => r matches Err(m) && m@ == subject_error_text(
                        MacroKind::Product,
                        name@,
                        bad_ident_detail(x),
                    ),
                    None => r matches Ok(p) && p.name@ == name@ && p.fields@.len() == fs@.len()
                        && forall|i: int|
                        0 <= i < fs@.len() ==> {
                            &&& (#[trigger] p.fields@[i]).name@ == fs@[i].name@
                            &&& rust_type_of(
                                p.fields@[i].ty,
                                fs@[i].kind@,
                                fs@[i].target_domain@,
                            )
                        },
                }
            },
        },
{
    match fields {
        Err(e) => Err(subject_error(&MacroKind::Product, name, e.as_str())),
        Ok(fs) => {
            if fs.len() == 0 {
                return Err(subject_error(&MacroKind::Product, name, "no fields found"));
            }
            let mut out: Vec<ProductField> = Vec::new();
            let mut i: usize = 0;
            assert(fs@.take(0) =~= Seq::<FieldInfo>::empty());
            while i < fs.len()
                invariant
                    fields == Ok::<Vec<FieldInfo>, String>(fs),
                    fs@.len() > 0,
                    i <= fs@.len(),
                    out@.len() == i,
                    first_bad_ident(fs@.take(i as int)) is None,
                    forall|j: int|
                        0 <= j < i ==> {
                            &&& (#[trigger] out@[j]).name@ == fs@[j].name@
                            &&& rust_type_of(out@[j].ty, fs@[j].kind@, fs@[j].target_domain@)
                        },
                decreases fs@.len() - i,
            {
                let ghost next = fs@.take(i + 1);
                assert(next.drop_last() == fs@.take(i as int));
                assert(next.last() == fs@[i as int]);
                let f = &fs[i];
                if !is_legal_ident(f.name.as_str()) {
                    proof {
                        lemma_first_bad_ident_extends(fs@, i + 1);
                    }
                    return Err(bad_ident_message(&MacroKind::Product, name, f.name.as_str()));
                }
                let is_domain = str_eq(f.kind.as_str(), "domain");
                if is_domain && !is_legal_ident(f.target_domain.as_str()) {
                    proof {
                        lemma_first_bad_ident_extends(fs@, i + 1);
                    }
                    return Err(
                        bad_ident_message(&MacroKind::Product, name, f.target_domain.as_str()),
                    );
                }
                let ty = field_type_to_rust_type(f.kind.as_str(), f.target_domain.as_str());
                out.push(ProductField { name: f.name.clone(), ty });
                i = i + 1;
            }
            assert(fs@.take(fs@.len() as int) == fs@);
            Ok(ProductPlan { name: String::from_str(name), fields: out })
        },
    }
}

/// Once a prefix of the fields holds a bad identifier, every longer prefix
/// reports the same one.
proof fn lemma_first_bad_ident_extends(fs: Seq<FieldInfo>, i: int)
    requires
        0 <= i <= fs.len(),
        first_bad_ident(fs.take(i)) is Some,
    ensures
        first_bad_ident(fs) == first_bad_ident(fs.take(i)),
    decreases fs.len() - i,
{
    if i < fs.len() {
        assert(fs.take(i + 1).drop_last() == fs.take(i));
        lemma_first_bad_ident_extends(fs, i + 1);
    } else {
        assert(fs.take(i) == fs);
    }
}

// ---------------------------------------------------------------------------
// Morphisms
// ---------------------------------------------------------------------------

/// One method of a generated trait: its Rust name and its doc text.
pub struct TraitMethod {
    pub ident: String,
    pub doc: String,
}

/// A generated trait: its name and its methods, in the order of the interface.
pub struct MorphismPlan {
    pub name: String,
    pub methods: Vec<TraitMethod>,
}

/// The Rust names of the methods of an interface, in order.
pub open spec fn method_idents(ms: Seq<MethodInfo>) -> Seq<Seq<char>> {
    ms.map_values(|m: MethodInfo| snake_case(m.name@))
}

/// Decides what `morphism!(NAME)` generates from the decoded methods of
/// interface `NAME`: a trait with one method per interface method, named in
/// snake case and documented by its description, or the compile error when
/// decoding failed or a method's Rust name is no legal identifier (the first
/// such). An interface without methods gives an empty trait.
pub fn plan_morphism(name: &str, methods: Result<Vec<MethodInfo>, String>) -> (r: Result<
    MorphismPlan,
    String,
>)
    ensures
        match methods {
            Err(e) => r matches Err(m) && m@ == subject_error_text(MacroKind::Morphism, name@, e@),
            Ok(ms) => match first_illegal(method_idents(ms@)) {
                Some(k) => r matches Err(m) && m@ == subject_error_text(
                    MacroKind::Morphism,
                    name@,
                    bad_ident_detail(method_idents(ms@)[k]),
                ),
                None => r matches Ok(p) && p.name@ == name@ && p.methods@.len() == ms@.len()
                    && forall|i: int|
                    0 <= i < ms@.len() ==> {
                        &&& (#[trigger] p.methods@[i]).ident@ == snake_case(ms@[i].name@)
                        &&& p.methods@[i].doc@ == ms@[i].description@
                    },
            },
        },
{
    match methods {
        Err(e) => Err(subject_error(&MacroKind::Morphism, name, e.as_str())),
        Ok(ms) => {
            let ghost ids = method_idents(ms@);
            let mut out: Vec<TraitMethod> = Vec::new();
            let mut i: usize = 0;
            assert(ids.take(0) =~= Seq::<Seq<char>>::empty());
            while i < ms.len()
                invariant
                    methods == Ok::<Vec<MethodInfo>, String>(ms),
                    ids == method_idents(ms@),
                    i <= ms@.len(),
                    out@.len() == i,
                    first_illegal(ids.take(i as int)) is None,
                    forall|j: int|
                        0 <= j < i ==> {
                            &&& (#[trigger] out@[j]).ident@ == snake_case(ms@[j].name@)
                            &&& out@[j].doc@ == ms@[j].description@
                        },
                decreases ms@.len() - i,
            {
                let m = &ms[i];
                let ident = to_snake_case(m.name.as_str());
                assert(ids.take(i + 1).drop_last() == ids.take(i as int));
                assert(ids.take(i + 1).last() == ident@);
                if !is_legal_ident(ident.as_str()) {
                    proof {
                        lemma_first_illegal_prefix(ids, i + 1);
                    }
                    return Err(bad_ident_message(&MacroKind::Morphism, name, ident.as_str()));
                }
                out.push(TraitMethod { ident, doc: m.description.clone() });
                i = i + 1;
            }
            assert(ids.take(i as int) == ids);
            Ok(MorphismPlan { name: String::from_str(name), methods: out })
        },
    }
}

} // verus!
