//! Decoding of the schema database's answers: the query texts the macros
//! send, what each answer yields, and the order in which the database is
//! loaded. The database itself is driven from outside this crate; every
//! function here takes an answer as an argument.

use vstd::prelude::*;
use crate::rows::{QueryResult, Row, column_texts, flag_at, opt_view, row_flag, row_text, strings, text_at, texts_at};
use crate::text::{comment_only, is_comment_only, trim, trim_text};

verus! {

broadcast use vstd::string::group_string_axioms;

/// One column of a product relation, with the type given to it by the
/// `field_type` relation.
pub struct FieldInfo {
    pub name: String,
    pub kind: String,
    pub target_domain: String,
}

/// One method of an RPC interface.
pub struct MethodInfo {
    pub name: String,
    pub description: String,
}

/// A method, by its characters: name, description.
pub open spec fn method_view(m: MethodInfo) -> (Seq<char>, Seq<char>) {
    (m.name@, m.description@)
}

/// A decoded list of strings or an error message, by characters.
pub open spec fn strings_result(r: Result<Vec<String>, String>) -> Result<
    Seq<Seq<char>>,
    Seq<char>,
> {
    match r {
        Ok(v) => Ok(strings(v@)),
        Err(e) => Err(e@),
    }
}

/// A decoded list of methods or an error message, by characters.
pub open spec fn methods_result(r: Result<Vec<MethodInfo>, String>) -> Result<
    Seq<(Seq<char>, Seq<char>)>,
    Seq<char>,
> {
    match r {
        Ok(v) => Ok(v@.map_values(|m: MethodInfo| method_view(m))),
        Err(e) => Err(e@),
    }
}

// ---------------------------------------------------------------------------
// Domain variants
// ---------------------------------------------------------------------------

/// The query for the keys of relation `domain`, in order.
pub open spec fn domain_variants_query_text(domain: Seq<char>) -> Seq<char> {
    "?[name] := *"@ + domain + "{name} :order name"@
}

/// Builds `domain_variants_query_text(domain)`.
pub fn domain_variants_query(domain: &str) -> (q: String)
    ensures
        q@ == domain_variants_query_text(domain@),
{
    let mut q = String::from_str("?[name] := *");
    q.append(domain);
    q.append("{name} :order name");
    q
}

/// What the variants of `domain` are, given the answer to its query: the
/// text in the first column of each row that has one, in row order.
pub open spec fn domain_variants_of(domain: Seq<char>, answer: Result<QueryResult, String>) -> Result<
    Seq<Seq<char>>,
    Seq<char>,
> {
    match answer {
        Err(e) => Err("query domain "@ + domain + ": "@ + e@),
        Ok(res) => match res.rows {
            None => Err("domain "@ + domain + ": missing rows"@),
            Some(rows) => Ok(column_texts(rows@, 0)),
        },
    }
}

/// Decodes the variants of `domain` from the answer to
/// `domain_variants_query(domain)`.
pub fn query_domain_variants(domain: &str, answer: Result<QueryResult, String>) -> (r: Result<
    Vec<String>,
    String,
>)
    ensures
        strings_result(r) == domain_variants_of(domain@, answer),
{
    match answer {
        Err(e) => {
            let mut m = String::from_str("query domain ");
            m.append(domain);
            m.append(": ");
            m.append(e.as_str());
            Err(m)
        },
        Ok(res) => match &res.rows {
            None => {
                let mut m = String::from_str("domain ");
                m.append(domain);
                m.append(": missing rows");
                Err(m)
            },
            Some(rows) => Ok(texts_at(rows, 0)),
        },
    }
}

// ---------------------------------------------------------------------------
// Product fields
// ---------------------------------------------------------------------------

/// The query for the columns of `relation`.
pub open spec fn columns_query_text(relation: Seq<char>) -> Seq<char> {
    "::columns "@ + relation
}

/// Builds `columns_query_text(relation)`.
pub fn columns_query(relation: &str) -> (q: String)
    ensures
        q@ == columns_query_text(relation@),
{
    let mut q = String::from_str("::columns ");
    q.append(relation);
    q
}

/// The column names that column rows hold: the first text of each row, or
/// the error of the first row that is not an array or has no such text.
pub open spec fn column_names_of(rows: Seq<Row>) -> Result<Seq<Seq<char>>, Seq<char>>
    decreases rows.len(),
{
    if rows.len() == 0 {
        Ok(Seq::empty())
    } else {
        match column_names_of(rows.drop_last()) {
            Err(e) => Err(e),
            Ok(names) => match rows.last().cells {
                None => Err("column row not array"@),
                Some(_) => match row_text(rows.last(), 0) {
                    None => Err("missing column name"@),
                    Some(t) => Ok(names.push(t)),
                },
            },
        }
    }
}

/// What the columns of product `relation` are, given the answer to its
/// column query.
pub open spec fn product_columns_of(relation: Seq<char>, answer: Result<QueryResult, String>) -> Result<
    Seq<Seq<char>>,
    Seq<char>,
> {
    match answer {
        Err(e) => Err("columns "@ + relation + ": "@ + e@),
        Ok(res) => match res.rows {
            None => Err("product "@ + relation + ": missing column rows"@),
            Some(rows) => column_names_of(rows@),
        },
    }
}

/// Decodes the column names of `relation` from the answer to
/// `columns_query(relation)`.
pub fn product_column_names(relation: &str, answer: Result<QueryResult, String>) -> (r: Result<
    Vec<String>,
    String,
>)
    ensures
        strings_result(r) == product_columns_of(relation@, answer),
{
    match answer {
        Err(e) => {
            let mut m = String::from_str("columns ");
            m.append(relation);
            m.append(": ");
            m.append(e.as_str());
            Err(m)
        },
        Ok(res) => match &res.rows {
            None => {
                let mut m = String::from_str("product ");
                m.append(relation);
                m.append(": missing column rows");
                Err(m)
            },
            Some(rows) => {
                let mut names: Vec<String> = Vec::new();
                let mut i: usize = 0;
                assert(rows@.take(0) =~= Seq::<Row>::empty());
                assert(strings(names@) =~= Seq::<Seq<char>>::empty());
                while i < rows.len()
                    invariant
                        i <= rows@.len(),
                        product_columns_of(relation@, answer) == column_names_of(rows@),
                        column_names_of(rows@.take(i as int)) == Ok::<
                            Seq<Seq<char>>,
                            Seq<char>,
                        >(strings(names@)),
                    decreases rows@.len() - i,
                {
                    let ghost pre = rows@.take(i as int);
                    let ghost next = rows@.take(i + 1);
                    assert(next.drop_last() == pre);
                    assert(next.last() == rows@[i as int]);
                    let row = &rows[i];
                    match &row.cells {
                        None => {
                            let m = String::from_str("column row not array");
                            proof {
                                assert(column_names_of(next) == Err::<Seq<Seq<char>>, Seq<char>>(m@));
                                lemma_column_names_err_extends(rows@, i + 1);
                            }
                            return Err(m);
                        },
                        Some(_) => {},
                    }
                    match text_at(row, 0) {
                        None => {
                            let m = String::from_str("missing column name");
                            proof {
                                assert(column_names_of(next) == Err::<Seq<Seq<char>>, Seq<char>>(m@));
                                lemma_column_names_err_extends(rows@, i + 1);
                            }
                            return Err(m);
                        },
                        Some(t) => {
                            let ghost before = names@;
                            names.push(t);
                            assert(strings(names@) == strings(before).push(t@));
                        },
                    }
                    i = i + 1;
                }
                assert(rows@.take(rows@.len() as int) == rows@);
                Ok(names)
            },
        },
    }
}

/// Once the decoding of a prefix of the column rows fails, the decoding of
/// every longer prefix fails the same way.
proof fn lemma_column_names_err_extends(rows: Seq<Row>, i: int)
    requires
        0 <= i <= rows.len(),
        column_names_of(rows.take(i)) is Err,
    ensures
        column_names_of(rows) == column_names_of(rows.take(i)),
    decreases rows.len() - i,
{
    if i < rows.len() {
        assert(rows.take(i + 1).drop_last() == rows.take(i));
        lemma_column_names_err_extends(rows, i + 1);
    } else {
        assert(rows.take(i) == rows);
    }
}

/// The query for the `field_type` entry of one column.
pub open spec fn field_type_query_text(relation: Seq<char>, column: Seq<char>) -> Seq<char> {
    "?[kind, target_domain] := *field_type{relation: \""@ + relation + "\", column: \""@ + column
        + "\", kind, target_domain, unit_domain, description, phase, dignity}"@
}

/// Builds `field_type_query_text(relation, column)`.
pub fn field_type_query(relation: &str, column: &str) -> (q: String)
    ensures
        q@ == field_type_query_text(relation@, column@),
{
    let mut q = String::from_str("?[kind, target_domain] := *field_type{relation: \"");
    q.append(relation);
    q.append("\", column: \"");
    q.append(column);
    q.append("\", kind, target_domain, unit_domain, description, phase, dignity}");
    q
}

/// The kind and target domain that the answer to a `field_type` query gives
/// a column: the first two texts of the first row, `"data"` and `""` where
/// they are missing, and `("data", "")` when the query failed or found no
/// array row.
pub open spec fn field_type_of(answer: Result<QueryResult, String>) -> (Seq<char>, Seq<char>) {
    match answer {
        Ok(res) => match res.rows {
            Some(rows) => if rows@.len() > 0 && rows@[0].cells is Some {
                (
                    match row_text(rows@[0], 0) {
                        Some(k) => k,
                        None => "data"@,
                    },
                    match row_text(rows@[0], 1) {
                        Some(t) => t,
                        None => Seq::<char>::empty(),
                    },
                )
            } else {
                ("data"@, Seq::<char>::empty())
            },
            None => ("data"@, Seq::<char>::empty()),
        },
        Err(_) => ("data"@, Seq::<char>::empty()),
    }
}

/// Builds the field description of `column` from the answer to
/// `field_type_query(relation, column)`.
pub fn field_info(column: String, answer: Result<QueryResult, String>) -> (f: FieldInfo)
    ensures
        f.name@ == column@,
        (f.kind@, f.target_domain@) == field_type_of(answer),
{
    let mut kind = String::from_str("data");
    let mut target = String::new();
    if let Ok(res) = &answer {
        if let Some(rows) = &res.rows {
            if rows.len() > 0 {
                let first = &rows[0];
                if first.cells.is_some() {
                    if let Some(k) = text_at(first, 0) {
                        kind = k;
                    }
                    if let Some(t) = text_at(first, 1) {
                        target = t;
                    }
                }
            }
        }
    }
    FieldInfo { name: column, kind, target_domain: target }
}

// ---------------------------------------------------------------------------
// RPC methods
// ---------------------------------------------------------------------------

/// The query for the methods of RPC interface `interface`, in order.
pub open spec fn rpc_methods_query_text(interface: Seq<char>) -> Seq<char> {
    "?[method, description] := *rpc_method{interface: \""@ + interface
        + "\", method, description, phase, dignity} :order method"@
}

/// Builds `rpc_methods_query_text(interface)`.
pub fn rpc_methods_query(interface: &str) -> (q: String)
    ensures
        q@ == rpc_methods_query_text(interface@),
{
    let mut q = String::from_str("?[method, description] := *rpc_method{interface: \"");
    q.append(interface);
    q.append("\", method, description, phase, dignity} :order method");
    q
}

/// The method that a row describes: its first text is the name, its second
/// the description (`""` when missing); a row without a name describes none.
pub open spec fn method_of_row(r: Row) -> Option<(Seq<char>, Seq<char>)> {
    match row_text(r, 0) {
        Some(n) => Some(
            (
                n,
                match row_text(r, 1) {
                    Some(d) => d,
                    None => Seq::<char>::empty(),
                },
            ),
        ),
        None => None,
    }
}

/// What the methods of `interface` are, given the answer to its query.
pub open spec fn rpc_methods_of(interface: Seq<char>, answer: Result<QueryResult, String>) -> Result<
    Seq<(Seq<char>, Seq<char>)>,
    Seq<char>,
> {
    match answer {
        Err(e) => Err("query rpc_method "@ + interface + ": "@ + e@),
        Ok(res) => match res.rows {
            None => Err("morphism "@ + interface + ": missing rows"@),
            Some(rows) => Ok(rows@.filter_map(|r: Row| method_of_row(r))),
        },
    }
}

/// Decodes the methods of `interface` from the answer to
/// `rpc_methods_query(interface)`.
pub fn query_rpc_methods(interface: &str, answer: Result<QueryResult, String>) -> (r: Result<
    Vec<MethodInfo>,
    String,
>)
    ensures
        methods_result(r) == rpc_methods_of(interface@, answer),
{
    match answer {
        Err(e) => {
            let mut m = String::from_str("query rpc_method ");
            m.append(interface);
            m.append(": ");
            m.append(e.as_str());
            Err(m)
        },
        Ok(res) => match &res.rows {
            None => {
                let mut m = String::from_str("morphism ");
                m.append(interface);
                m.append(": missing rows");
                Err(m)
            },
            Some(rows) => {
                let mut out: Vec<MethodInfo> = Vec::new();
                let ghost f = |r: Row| method_of_row(r);
                let ghost g = |m: MethodInfo| method_view(m);
                let mut i: usize = 0;
                assert(rows@.take(0).filter_map(f) =~= Seq::<(Seq<char>, Seq<char>)>::empty());
                while i < rows.len()
                    invariant
                        i <= rows@.len(),
                        f == (|r: Row| method_of_row(r)),
                        g == (|m: MethodInfo| method_view(m)),
                        out@.map_values(g) == rows@.take(i as int).filter_map(f),
                    decreases rows@.len() - i,
                {
                    proof {
                        rows@.lemma_filter_map_take_succ(f, i as int);
                    }
                    let row = &rows[i];
                    match text_at(row, 0) {
                        Some(name) => {
                            let description = match text_at(row, 1) {
                                Some(d) => d,
                                None => String::new(),
                            };
                            let ghost before = out@;
                            let m = MethodInfo { name, description };
                            out.push(m);
                            assert(out@.map_values(g) == before.map_values(g).push(g(m)));
                        },
                        None => {},
                    }
                    i = i + 1;
                }
                assert(rows@.take(rows@.len() as int) == rows@);
                Ok(out)
            },
        },
    }
}

// ---------------------------------------------------------------------------
// Enumeration domains of the registry
// ---------------------------------------------------------------------------

/// The query for the names of all registered domains, in order.
pub open spec fn all_domains_query_text() -> Seq<char> {
    "?[name] := *Domain{name} :order name"@
}

/// Builds `all_domains_query_text()`.
pub fn all_domains_query() -> (q: String)
    ensures
        q@ == all_domains_query_text(),
{
    String::from_str("?[name] := *Domain{name} :order name")
}

/// The query that asks whether relation `name` holds a row.
pub open spec fn probe_query_text(name: Seq<char>) -> Seq<char> {
    "?[name] := *"@ + name + "{name} :limit 1"@
}

/// Builds `probe_query_text(name)`.
pub fn probe_query(name: &str) -> (q: String)
    ensures
        q@ == probe_query_text(name@),
{
    let mut q = String::from_str("?[name] := *");
    q.append(name);
    q.append("{name} :limit 1");
    q
}

/// The non-empty texts in the first column of the registry rows, in order.
pub open spec fn registered_names(rows: Seq<Row>) -> Seq<Seq<char>> {
    rows.filter_map(
        |r: Row|
            match row_text(r, 0) {
                Some(t) => if t.len() > 0 {
                    Some(t)
                } else {
                    None
                },
                None => None,
            },
    )
}

/// How many column rows describe a key column (their second value is `true`).
pub open spec fn key_column_count(cols: Seq<Row>) -> nat
    decreases cols.len(),
{
    if cols.len() == 0 {
        0
    } else {
        key_column_count(cols.drop_last()) + if row_flag(cols.last(), 1) == Some(true) {
            1nat
        } else {
            0nat
        }
    }
}

/// The answer to a column query shows a relation with exactly one key column.
pub open spec fn single_key(answer: Result<QueryResult, String>) -> bool {
    match answer {
        Ok(res) => match res.rows {
            Some(cols) => key_column_count(cols@) == 1,
            None => false,
        },
        Err(_) => false,
    }
}

/// The answer to a probe query holds at least one row.
pub open spec fn has_rows(answer: Result<QueryResult, String>) -> bool {
    match answer {
        Ok(res) => match res.rows {
            Some(rows) => rows@.len() > 0,
            None => false,
        },
        Err(_) => false,
    }
}

/// Decides `single_key`.
pub fn is_single_key(answer: &Result<QueryResult, String>) -> (b: bool)
    ensures
        b == single_key(*answer),
{
    match answer {
        Ok(res) => match &res.rows {
            Some(cols) => {
                let mut count: usize = 0;
                let mut i: usize = 0;
                while i < cols.len()
                    invariant
                        i <= cols@.len(),
                        count <= i,
                        count == key_column_count(cols@.take(i as int)),
                    decreases cols@.len() - i,
                {
                    assert(cols@.take(i + 1).drop_last() == cols@.take(i as int));
                    assert(cols@.take(i + 1).last() == cols@[i as int]);
                    if flag_at(&cols[i], 1) == Some(true) {
                        count = count + 1;
                    }
                    i = i + 1;
                }
                assert(cols@.take(cols@.len() as int) == cols@);
                count == 1
            },
            None => false,
        },
        Err(_) => false,
    }
}

/// Decides `has_rows`.
pub fn answer_has_rows(answer: &Result<QueryResult, String>) -> (b: bool)
    ensures
        b == has_rows(*answer),
{
    match answer {
        Ok(res) => match &res.rows {
            Some(rows) => rows.len() > 0,
            None => false,
        },
        Err(_) => false,
    }
}

/// The state of a scan for the domains that become enumerations, by value.
pub struct ScanView {
    /// The registered domain names still to be examined and those already examined.
    pub names: Seq<Seq<char>>,
    /// The index of the name under examination.
    pub pos: nat,
    /// Whether the columns of that name were found single-keyed and its
    /// probe query is awaited.
    pub probing: bool,
    /// The names kept so far, in order.
    pub found: Seq<Seq<char>>,
}

/// The query a scan asks next, while a name is under examination.
pub open spec fn scan_query(v: ScanView) -> Seq<char> {
    if v.probing {
        probe_query_text(v.names[v.pos as int])
    } else {
        columns_query_text(v.names[v.pos as int])
    }
}

/// One step of a scan: what feeding it `answer` makes of it.
pub open spec fn scan_step(v: ScanView, answer: Result<QueryResult, String>) -> ScanView {
    if v.pos >= v.names.len() {
        v
    } else if !v.probing {
        if single_key(answer) {
            ScanView { probing: true, ..v }
        } else {
            ScanView { pos: v.pos + 1, ..v }
        }
    } else {
        ScanView {
            pos: v.pos + 1,
            probing: false,
            found: if has_rows(answer) {
                v.found.push(v.names[v.pos as int])
            } else {
                v.found
            },
            ..v
        }
    }
}

/// A whole scan from `v` on, each query answered by `db`.
pub open spec fn scan_run(v: ScanView, db: spec_fn(Seq<char>) -> Result<QueryResult, String>) -> ScanView
    decreases v.names.len() - v.pos, if v.probing {
            0int
        } else {
            1int
        },
{
    if v.pos >= v.names.len() {
        v
    } else {
        scan_run(scan_step(v, db(scan_query(v))), db)
    }
}

/// A domain that becomes an enumeration, by the answers of `db`: its
/// relation has exactly one key column and at least one row.
pub open spec fn is_enum_domain(
    name: Seq<char>,
    db: spec_fn(Seq<char>) -> Result<QueryResult, String>,
) -> bool {
    single_key(db(columns_query_text(name))) && has_rows(db(probe_query_text(name)))
}

/// The names among `names` that are enumeration domains by the answers of
/// `db`, in order.
pub open spec fn enum_domains_of(
    names: Seq<Seq<char>>,
    db: spec_fn(Seq<char>) -> Result<QueryResult, String>,
) -> Seq<Seq<char>>
    decreases names.len(),
{
    if names.len() == 0 {
        Seq::empty()
    } else {
        (if is_enum_domain(names[0], db) {
            seq![names[0]]
        } else {
            Seq::empty()
        }) + enum_domains_of(names.drop_first(), db)
    }
}

/// A scan of the registered domains for those that become enumerations: a
/// domain is kept when its relation has exactly one key column and at least
/// one row. The scan asks for one query at a time and is fed the answers.
pub struct EnumDomainScan {
    names: Vec<String>,
    pos: usize,
    probing: bool,
    found: Vec<String>,
}

impl View for EnumDomainScan {
    type V = ScanView;

    closed spec fn view(&self) -> ScanView {
        ScanView {
            names: strings(self.names@),
            pos: self.pos as nat,
            probing: self.probing,
            found: strings(self.found@),
        }
    }
}

impl EnumDomainScan {
    #[verifier::type_invariant]
    closed spec fn scan_inv(self) -> bool {
        &&& self.pos <= self.names@.len()
        &&& self.probing ==> self.pos < self.names@.len()
        &&& forall|k: int|
            0 <= k < self.found@.len() ==> strings(self.names@).contains(#[trigger] self.found@[k]@)
    }

    /// Starts a scan from the answer to `all_domains_query()`: a failed query
    /// or an answer without rows is an error.
    pub fn start(answer: Result<QueryResult, String>) -> (r: Result<EnumDomainScan, String>)
        ensures
            match answer {
                Err(e) => r matches Err(m) && m@ == "query Domain: "@ + e@,
                Ok(res) => match res.rows {
                    None => r matches Err(m) && m@ == "Domain: missing rows"@,
                    Some(rows) => r matches Ok(scan) && scan@ == (ScanView {
                        names: registered_names(rows@),
                        pos: 0,
                        probing: false,
                        found: Seq::empty(),
                    }),
                },
            },
    {
        match answer {
            Err(e) => {
                let mut m = String::from_str("query Domain: ");
                m.append(e.as_str());
                Err(m)
            },
            Ok(res) => match &res.rows {
                None => Err(String::from_str("Domain: missing rows")),
                Some(rows) => {
                    let mut names: Vec<String> = Vec::new();
                    let ghost f = |r: Row|
                        match row_text(r, 0) {
                            Some(t) => if t.len() > 0 {
                                Some(t)
                            } else {
                                None
                            },
                            None => None,
                        };
                    let mut i: usize = 0;
                    assert(rows@.take(0).filter_map(f) =~= Seq::<Seq<char>>::empty());
                    while i < rows.len()
                        invariant
                            i <= rows@.len(),
                            f == (|r: Row|
                                match row_text(r, 0) {
                                    Some(t) => if t.len() > 0 {
                                        Some(t)
                                    } else {
                                        None
                                    },
                                    None => None,
                                }),
                            strings(names@) == rows@.take(i as int).filter_map(f),
                        decreases rows@.len() - i,
                    {
                        proof {
                            rows@.lemma_filter_map_take_succ(f, i as int);
                        }
                        match text_at(&rows[i], 0) {
                            Some(t) => {
                                if t.unicode_len() > 0 {
                                    let ghost before = names@;
                                    names.push(t);
                                    assert(strings(names@) == strings(before).push(t@));
                                }
                            },
                            None => {},
                        }
                        i = i + 1;
                    }
                    assert(rows@.take(rows@.len() as int) == rows@);
                    let found: Vec<String> = Vec::new();
                    assert(strings(found@) =~= Seq::<Seq<char>>::empty());
                    Ok(EnumDomainScan { names, pos: 0, probing: false, found })
                },
            },
        }
    }

    /// The query to run next: the column query of the name under examination,
    /// or its probe query once its columns were found single-keyed; `None`
    /// once every name was examined.
    pub fn next_query(&self) -> (q: Option<String>)
        ensures
            opt_view(q) == if self@.pos < self@.names.len() {
                Some(
                    if self@.probing {
                        probe_query_text(self@.names[self@.pos as int])
                    } else {
                        columns_query_text(self@.names[self@.pos as int])
                    },
                )
            } else {
                None
            },
            self@.pos < self@.names.len() ==> opt_view(q) == Some(scan_query(self@)),
    {
        if self.pos < self.names.len() {
            let name = self.names[self.pos].as_str();
            if self.probing {
                Some(probe_query(name))
            } else {
                Some(columns_query(name))
            }
        } else {
            None
        }
    }

    /// Every name was examined.
    pub fn is_finished(&self) -> (b: bool)
        ensures
            b == (self@.pos >= self@.names.len()),
    {
        self.pos >= self.names.len()
    }

    /// Takes the answer to `next_query()`. A column answer that shows one key
    /// column leads to the probe; any other column answer moves to the next
    /// name. A probe answer with a row keeps the name; either way the scan moves
    /// to the next name. A finished scan is left as it is.
    pub fn feed(&mut self, answer: Result<QueryResult, String>)
        ensures
            final(self)@ == scan_step(old(self)@, answer),
            final(self)@.names == old(self)@.names,
            old(self)@.pos >= old(self)@.names.len() ==> final(self)@ == old(self)@,
            old(self)@.pos < old(self)@.names.len() && !old(self)@.probing ==> {
                if single_key(answer) {
                    final(self)@ == (ScanView { probing: true, ..old(self)@ })
                } else {
                    final(self)@ == (ScanView { pos: old(self)@.pos + 1, ..old(self)@ })
                }
            },
            old(self)@.pos < old(self)@.names.len() && old(self)@.probing ==> {
                final(self)@ == (ScanView {
                    pos: old(self)@.pos + 1,
                    probing: false,
                    found: if has_rows(answer) {
                        old(self)@.found.push(old(self)@.names[old(self)@.pos as int])
                    } else {
                        old(self)@.found
                    },
                    ..old(self)@
                })
            },
    {
        proof {
            use_type_invariant(&*self);
        }
        if self.pos >= self.names.len() {
            return;
        }
        if !self.probing {
            if is_single_key(&answer) {
                self.probing = true;
            } else {
                self.pos = self.pos + 1;
            }
        } else {
            if answer_has_rows(&answer) {
                let name = self.names[self.pos].clone();
                let mut found = self.found.clone();
                let ghost before = found@;
                found.push(name);
                assert(strings(found@) == strings(before).push(name@));
                assert(strings(self.names@)[self.pos as int] == name@);
                assert forall|k: int| 0 <= k < found@.len() implies strings(self.names@).contains(
                    #[trigger] found@[k]@,
                ) by {
                    if k < before.len() {
                        assert(found@[k] == before[k]);
                    }
                }
                self.found = found;
            }
            self.probing = false;
            self.pos = self.pos + 1;
        }
    }

    /// The names kept so far, in order; each of them is a registered name.
    pub fn found(&self) -> (v: Vec<String>)
        ensures
            strings(v@) == self@.found,
            forall|k: int| 0 <= k < v@.len() ==> self@.names.contains(#[trigger] strings(v@)[k]),
    {
        proof {
            use_type_invariant(self);
        }
        self.found.clone()
    }
}

// ---------------------------------------------------------------------------
// Loading the database
// ---------------------------------------------------------------------------

/// One step of loading the schemas, in the order the database is loaded.
#[derive(Clone, Copy)]
pub enum InitStage {
    CoreInit,
    CoreSeed,
    SamskaraInit,
    SamskaraSeed,
    SemaCoreInit,
    SemaCoreSeed,
    SemaCoreField,
    SemaInit,
    SemaSeed,
    SemaField,
    NoesisInit,
    NoesisSeed,
    FieldTypeSeed,
}

/// The name by which a failure of a loading step is reported.
pub open spec fn stage_label(s: InitStage) -> Seq<char> {
    match s {
        InitStage::CoreInit => "core init"@,
        InitStage::CoreSeed => "core seed"@,
        InitStage::SamskaraInit => "samskara init"@,
        InitStage::SamskaraSeed => "samskara seed"@,
        InitStage::SemaCoreInit => "sema-core init"@,
        InitStage::SemaCoreSeed => "sema-core seed"@,
        InitStage::SemaCoreField => "sema-core field"@,
        InitStage::SemaInit => "sema init"@,
        InitStage::SemaSeed => "sema seed"@,
        InitStage::SemaField => "sema field"@,
        InitStage::NoesisInit => "noesis init"@,
        InitStage::NoesisSeed => "noesis seed"@,
        InitStage::FieldTypeSeed => "field_type seed"@,
    }
}

/// The loading steps, in order: the core boot schema and seed, the world
/// schema and seed, the language core schema, seed and fields, the language
/// layer schema, seed and fields, and the noesis schema, seed and field types.
pub open spec fn stage_order() -> Seq<InitStage> {
    seq![
        InitStage::CoreInit,
        InitStage::CoreSeed,
        InitStage::SamskaraInit,
        InitStage::SamskaraSeed,
        InitStage::SemaCoreInit,
        InitStage::SemaCoreSeed,
        InitStage::SemaCoreField,
        InitStage::SemaInit,
        InitStage::SemaSeed,
        InitStage::SemaField,
        InitStage::NoesisInit,
        InitStage::NoesisSeed,
        InitStage::FieldTypeSeed,
    ]
}

impl InitStage {
    /// The name by which a failure of this step is reported.
    pub fn label(&self) -> (r: &'static str)
        ensures
            r@ == stage_label(*self),
    {
        match self {
            InitStage::CoreInit => "core init",
            InitStage::CoreSeed => "core seed",
            InitStage::SamskaraInit => "samskara init",
            InitStage::SamskaraSeed => "samskara seed",
            InitStage::SemaCoreInit => "sema-core init",
            InitStage::SemaCoreSeed => "sema-core seed",
            InitStage::SemaCoreField => "sema-core field",
            InitStage::SemaInit => "sema init",
            InitStage::SemaSeed => "sema seed",
            InitStage::SemaField => "sema field",
            InitStage::NoesisInit => "noesis init",
            InitStage::NoesisSeed => "noesis seed",
            InitStage::FieldTypeSeed => "field_type seed",
        }
    }
}

/// The loading steps, in order.
pub fn init_stages() -> (v: Vec<InitStage>)
    ensures
        v@ == stage_order(),
{
    let v = vec![
        InitStage::CoreInit,
        InitStage::CoreSeed,
        InitStage::SamskaraInit,
        InitStage::SamskaraSeed,
        InitStage::SemaCoreInit,
        InitStage::SemaCoreSeed,
        InitStage::SemaCoreField,
        InitStage::SemaInit,
        InitStage::SemaSeed,
        InitStage::SemaField,
        InitStage::NoesisInit,
        InitStage::NoesisSeed,
        InitStage::FieldTypeSeed,
    ];
    assert(v@ =~= stage_order());
    v
}

/// The statement to run for one statement of a schema script: the statement
/// trimmed, unless that is empty or holds nothing but comments.
pub open spec fn runnable_of(stmt: Seq<char>) -> Option<Seq<char>> {
    let t = trim(stmt);
    if t.len() > 0 && !comment_only(t) {
        Some(t)
    } else {
        None
    }
}

/// Decides which text, if any, to run for one statement of a schema script.
pub fn runnable_statement(stmt: &str) -> (r: Option<String>)
    ensures
        opt_view(r) == runnable_of(stmt@),
{
    let t = trim_text(stmt);
    if t.unicode_len() > 0 && !is_comment_only(t.as_str()) {
        Some(t)
    } else {
        None
    }
}

/// The error with which loading stops when a statement of `stage` fails.
pub fn init_failure(stage: &InitStage, e: &str) -> (m: String)
    ensures
        m@ == stage_label(*stage) + ": "@ + e@,
{
    let mut m = String::from_str(stage.label());
    m.append(": ");
    m.append(e);
    m
}

/// The error that loading the database reports once loading failed.
pub fn load_db_failure(e: &str) -> (m: String)
    ensures
        m@ == "DB init failed: "@ + e@,
{
    let mut m = String::from_str("DB init failed: ");
    m.append(e);
    m
}

/// Schema scripts split into statements, by their characters.
pub open spec fn scripts_view(scripts: Seq<Vec<String>>) -> Seq<Seq<Seq<char>>> {
    scripts.map_values(|v: Vec<String>| strings(v@))
}

/// The statements of one loading step that are run, in order, each with
/// its step.
pub open spec fn stage_statements(stage: InitStage, stmts: Seq<Seq<char>>) -> Seq<
    (InitStage, Seq<char>),
> {
    stmts.filter_map(|st: Seq<char>| runnable_of(st)).map_values(|t: Seq<char>| (stage, t))
}

/// Every statement that loading runs, in order: the runnable statements of
/// each step's script, the steps in `stage_order()`.
pub open spec fn init_queue(scripts: Seq<Seq<Seq<char>>>) -> Seq<(InitStage, Seq<char>)> {
    Seq::new(scripts.len(), |k: int| stage_statements(stage_order()[k], scripts[k])).flatten()
}

/// The state of loading, by value.
pub struct InitView {
    /// The statements to run, in order, each with its step.
    pub queue: Seq<(InitStage, Seq<char>)>,
    /// How many of them ran successfully.
    pub pos: nat,
    /// The error that stopped loading, if one did.
    pub failure: Option<Seq<char>>,
}

/// A unit result or an error message, by value.
pub open spec fn unit_result(r: Result<(), String>) -> Result<(), Seq<char>> {
    match r {
        Ok(_) => Ok(()),
        Err(e) => Err(e@),
    }
}

/// One step of loading: what the outcome of running the next statement
/// makes of it. A failure stops loading with the step's label and the error.
pub open spec fn init_step(v: InitView, outcome: Result<(), Seq<char>>) -> InitView {
    if v.failure is Some || v.pos >= v.queue.len() {
        v
    } else {
        match outcome {
            Ok(_) => InitView { pos: v.pos + 1, ..v },
            Err(e) => InitView {
                failure: Some(stage_label(v.queue[v.pos as int].0) + ": "@ + e),
                ..v
            },
        }
    }
}

/// A whole load from `v` on, each statement's outcome given by `run`.
pub open spec fn init_run(v: InitView, run: spec_fn(Seq<char>) -> Result<(), Seq<char>>) -> InitView
    decreases v.queue.len() - v.pos, if v.failure is Some {
            0int
        } else {
            1int
        },
{
    if v.failure is Some || v.pos >= v.queue.len() {
        v
    } else {
        init_run(init_step(v, run(v.queue[v.pos as int].1)), run)
    }
}

/// Loading the schemas into the database: runs the runnable statements of
/// every step, in order, each once, and stops at the first that fails. It
/// asks for one statement at a time and is fed the outcomes.
pub struct InitRun {
    stages: Vec<InitStage>,
    texts: Vec<String>,
    pos: usize,
    failure: Option<String>,
}

impl View for InitRun {
    type V = InitView;

    closed spec fn view(&self) -> InitView {
        InitView {
            queue: Seq::new(self.texts@.len(), |i: int| (self.stages@[i], self.texts@[i]@)),
            pos: self.pos as nat,
            failure: opt_view(self.failure),
        }
    }
}

impl InitRun {
    #[verifier::type_invariant]
    closed spec fn run_inv(self) -> bool {
        &&& self.stages@.len() == self.texts@.len()
        &&& self.pos <= self.texts@.len()
        &&& self.failure is Some ==> self.pos < self.texts@.len()
    }

    /// Starts loading from the scripts of the steps, in `stage_order()`, each
    /// split into statements.
    pub fn start(scripts: &Vec<Vec<String>>) -> (r: InitRun)
        requires
            scripts@.len() == stage_order().len(),
        ensures
            r@ == (InitView { queue: init_queue(scripts_view(scripts@)), pos: 0, failure: None }),
    {
        let order = init_stages();
        let ghost sv = scripts_view(scripts@);
        let ghost f = |k: int| stage_statements(stage_order()[k], sv[k]);
        let ghost g = |st: Seq<char>| runnable_of(st);
        let mut stages: Vec<InitStage> = Vec::new();
        let mut texts: Vec<String> = Vec::new();
        let mut k: usize = 0;
        assert(Seq::new(0, f).flatten() =~= Seq::<(InitStage, Seq<char>)>::empty());
        while k < scripts.len()
            invariant
                order@ == stage_order(),
                scripts@.len() == stage_order().len(),
                sv == scripts_view(scripts@),
                f == (|k: int| stage_statements(stage_order()[k], sv[k])),
                g == (|st: Seq<char>| runnable_of(st)),
                k <= scripts@.len(),
                stages@.len() == texts@.len(),
                Seq::new(texts@.len(), |i: int| (stages@[i], texts@[i]@)) == Seq::new(
                    k as nat,
                    f,
                ).flatten(),
            decreases scripts@.len() - k,
        {
            let stage = order[k];
            let stmts = &scripts[k];
            let ghost base = Seq::new(texts@.len(), |i: int| (stages@[i], texts@[i]@));
            let ghost ss = strings(stmts@);
            assert(sv[k as int] == ss);
            let mut j: usize = 0;
            assert(ss.take(0).filter_map(g) =~= Seq::<Seq<char>>::empty());
            assert(base + ss.take(0).filter_map(g).map_values(|t: Seq<char>| (stage, t)) =~= base);
            while j < stmts.len()
                invariant
                    g == (|st: Seq<char>| runnable_of(st)),
                    ss == strings(stmts@),
                    j <= stmts@.len(),
                    stages@.len() == texts@.len(),
                    Seq::new(texts@.len(), |i: int| (stages@[i], texts@[i]@)) == base + ss.take(
                        j as int,
                    ).filter_map(g).map_values(|t: Seq<char>| (stage, t)),
                decreases stmts@.len() - j,
            {
                proof {
                    ss.lemma_filter_map_take_succ(g, j as int);
                }
                assert(ss[j as int] == stmts@[j as int]@);
                let r = runnable_statement(stmts[j].as_str());
                match r {
                    Some(t) => {
                        let ghost before = Seq::new(
                            texts@.len(),
                            |i: int| (stages@[i], texts@[i]@),
                        );
                        stages.push(stage);
                        texts.push(t);
                        assert(Seq::new(texts@.len(), |i: int| (stages@[i], texts@[i]@)) =~= before.push(
                            (stage, t@),
                        ));
                        assert(ss.take(j + 1).filter_map(g) == ss.take(j as int).filter_map(g).push(
                            t@,
                        ));
                        assert(ss.take(j + 1).filter_map(g).map_values(|t: Seq<char>| (stage, t))
                            =~= ss.take(j as int).filter_map(g).map_values(
                            |t: Seq<char>| (stage, t),
                        ).push((stage, t@)));
                    },
                    None => {
                        assert(ss.take(j + 1).filter_map(g) =~= ss.take(j as int).filter_map(g));
                    },
                }
                j = j + 1;
            }
            assert(ss.take(j as int) == ss);
            proof {
                let prev = Seq::new(k as nat, f);
                assert(f(k as int) == stage_statements(stage, ss));
                assert(Seq::new((k + 1) as nat, f) =~= prev.push(f(k as int)));
                prev.lemma_flatten_push(f(k as int));
            }
            k = k + 1;
        }
        assert(sv.len() == scripts@.len());
        assert(Seq::new(k as nat, f) =~= Seq::new(
            sv.len(),
            |k: int| stage_statements(stage_order()[k], sv[k]),
        ));
        InitRun { stages, texts, pos: 0, failure: None }
    }

    /// The statement to run next; `None` once every statement ran or one failed.
    pub fn next_statement(&self) -> (r: Option<String>)
        ensures
            opt_view(r) == if self@.failure is None && self@.pos < self@.queue.len() {
                Some(self@.queue[self@.pos as int].1)
            } else {
                None
            },
    {
        proof {
            use_type_invariant(self);
        }
        if self.failure.is_none() && self.pos < self.texts.len() {
            Some(self.texts[self.pos].clone())
        } else {
            None
        }
    }

    /// Takes the outcome of running `next_statement()`.
    pub fn feed(&mut self, outcome: Result<(), String>)
        ensures
            final(self)@ == init_step(old(self)@, unit_result(outcome)),
    {
        proof {
            use_type_invariant(&*self);
        }
        if self.failure.is_some() || self.pos >= self.texts.len() {
            return;
        }
        match outcome {
            Ok(_) => {
                self.pos = self.pos + 1;
            },
            Err(e) => {
                let m = init_failure(&self.stages[self.pos], e.as_str());
                self.failure = Some(m);
            },
        }
    }

    /// How loading ended: the error that stopped it, `Ok` once every
    /// statement ran, `None` while statements remain.
    pub fn outcome(&self) -> (r: Option<Result<(), String>>)
        ensures
            match self@.failure {
                Some(m) => r matches Some(Err(e)) && e@ == m,
                None => if self@.pos >= self@.queue.len() {
                    r matches Some(Ok(_))
                } else {
                    r is None
                },
            },
    {
        match &self.failure {
            Some(m) => Some(Err(m.clone())),
            None => if self.pos >= self.texts.len() {
                Some(Ok(()))
            } else {
                None
            },
        }
    }
}

} // verus!
