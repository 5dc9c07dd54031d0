use vstd::prelude::*;

verus! {

broadcast use vstd::string::group_string_axioms;

// ---------------------------------------------------------------------------
// Characters
// ---------------------------------------------------------------------------

/// Unicode `White_Space`, the set that `char::is_whitespace`, `str::trim` and
/// `str::lines` work with.
pub open spec fn is_whitespace(c: char) -> bool {
    let u = c as u32;
    ||| 0x09 <= u <= 0x0d
    ||| u == 0x20
    ||| u == 0x85
    ||| u == 0xa0
    ||| u == 0x1680
    ||| 0x2000 <= u <= 0x200a
    ||| u == 0x2028
    ||| u == 0x2029
    ||| u == 0x202f
    ||| u == 0x205f
    ||| u == 0x3000
}

/// Decides `is_whitespace`.
pub fn char_is_whitespace(c: char) -> (b: bool)
    ensures
        b == is_whitespace(c),
{
    let u = c as u32;
    (0x09 <= u && u <= 0x0d) || u == 0x20 || u == 0x85 || u == 0xa0 || u == 0x1680 || (0x2000
        <= u && u <= 0x200a) || u == 0x2028 || u == 0x2029 || u == 0x202f || u == 0x205f || u
        == 0x3000
}

/// `c` is an ASCII lower-case letter.
pub open spec fn is_ascii_lower(c: char) -> bool {
    97 <= (c as u32) <= 122
}

/// The characters that `char::to_uppercase` yields for `c`.
pub uninterp spec fn uppercase_of(c: char) -> Seq<char>;

/// Calls `char::to_uppercase` and collects the characters it yields. Claimed:
/// the result is `uppercase_of(c)`; it holds at least one character (std: the
/// iterator yields "one or more" chars); an ASCII lower-case letter maps to the
/// letter 32 code points below it and any other ASCII character to itself
/// (the Unicode case mapping of the ASCII range); and the upper-case mapping
/// of a character other than `_` and `-` holds neither of them (Unicode maps
/// to letters and marks only). Nothing else is claimed of the mapping
/// outside ASCII.
#[verifier::external_body]
fn to_uppercase_chars(c: char) -> (r: Vec<char>)
    ensures
        r@ == uppercase_of(c),
        r@.len() >= 1,
        is_ascii_lower(c) ==> r@ == seq![((c as u32) - 32) as char],
        (c as u32) < 128 && !is_ascii_lower(c) ==> r@ == seq![c],
        !is_separator(c) ==> forall|k: int| 0 <= k < r@.len() ==> !is_separator(#[trigger] r@[k]),
{
    c.to_uppercase().collect()
}

/// Appends one character to a string (`String::push`).
#[verifier::external_body]
pub(crate) fn push_char(s: &mut String, c: char)
    ensures
        final(s)@ == old(s)@.push(c),
{
    s.push(c);
}

// ---------------------------------------------------------------------------
// Small string helpers
// ---------------------------------------------------------------------------

/// The characters of `s`, in order.
pub fn chars_of(s: &str) -> (v: Vec<char>)
    ensures
        v@ == s@,
{
    let mut v: Vec<char> = Vec::new();
    for c in it: s.chars()
        invariant
            it.seq() == s@,
            v@ == s@.take(it.index() as int),
    {
        v.push(c);
        assert(s@.take(it.index() + 1) == s@.take(it.index() as int).push(c));
    }
    assert(s@.take(s@.len() as int) == s@);
    v
}

/// The string made of `v[lo..hi]`.
pub fn string_from_range(v: &Vec<char>, lo: usize, hi: usize) -> (r: String)
    requires
        lo <= hi <= v@.len(),
    ensures
        r@ == v@.subrange(lo as int, hi as int),
{
    let mut r = String::new();
    let mut i = lo;
    while i < hi
        invariant
            lo <= i <= hi <= v@.len(),
            r@ == v@.subrange(lo as int, i as int),
        decreases hi - i,
    {
        push_char(&mut r, v[i]);
        assert(v@.subrange(lo as int, i + 1) == v@.subrange(lo as int, i as int).push(v@[i as int]));
        i = i + 1;
    }
    r
}

/// `a` and `b` hold the same characters.
pub fn str_eq(a: &str, b: &str) -> (r: bool)
    ensures
        r == (a@ == b@),
{
    let x = chars_of(a);
    let y = chars_of(b);
    if x.len() != y.len() {
        return false;
    }
    let mut i: usize = 0;
    while i < x.len()
        invariant
            x@ == a@,
            y@ == b@,
            x@.len() == y@.len(),
            i <= x@.len(),
            forall|j: int| 0 <= j < i ==> x@[j] == y@[j],
        decreases x@.len() - i,
    {
        if x[i] != y[i] {
            return false;
        }
        i = i + 1;
    }
    assert(x@ =~= y@);
    true
}

// ---------------------------------------------------------------------------
// Snake case
// ---------------------------------------------------------------------------

/// The character that replaces `c` in a snake-case method name.
pub open spec fn snake_char(c: char) -> char {
    if c == '-' {
        '_'
    } else {
        c
    }
}

/// The snake-case form of `s`: every `-` becomes `_`.
pub open spec fn snake_case(s: Seq<char>) -> Seq<char> {
    s.map_values(|c: char| snake_char(c))
}

/// Turns an interface method name into a Rust method name: every `-` becomes `_`.
pub fn to_snake_case(s: &str) -> (r: String)
    ensures
        r@ == snake_case(s@),
{
    let mut out = String::new();
    for c in it: s.chars()
        invariant
            it.seq() == s@,
            out@ == snake_case(s@.take(it.index() as int)),
    {
        if c == '-' {
            push_char(&mut out, '_');
        } else {
            push_char(&mut out, c);
        }
        assert(s@.take(it.index() + 1) == s@.take(it.index() as int).push(c));
    }
    assert(s@.take(s@.len() as int) == s@);
    out
}

// ---------------------------------------------------------------------------
// Pascal case
// ---------------------------------------------------------------------------

/// The characters at which a name is split into words.
pub open spec fn is_separator(c: char) -> bool {
    c == '_' || c == '-'
}

/// What the character at `i` contributes to the Pascal-case form of `s`:
/// nothing for a separator, its upper-case mapping where it begins a word,
/// itself elsewhere.
pub open spec fn pascal_piece(s: Seq<char>, i: int) -> Seq<char> {
    if is_separator(s[i]) {
        Seq::empty()
    } else if i == 0 || is_separator(s[i - 1]) {
        upper_chars(s[i])
    } else {
        seq![s[i]]
    }
}

/// The Pascal-case form of `s`: split at `_` and `-`, the first character of
/// each word upper-cased, the words joined.
pub open spec fn pascal_case(s: Seq<char>) -> Seq<char> {
    Seq::new(s.len(), |i: int| pascal_piece(s, i)).flatten()
}

/// The words of `s`: the pieces between its separators, as
/// `str::split` on `_` and `-` gives them (one more than there are
/// separators, empty ones included).
pub open spec fn words(s: Seq<char>) -> Seq<Seq<char>>
    decreases s.len(),
{
    if s.len() == 0 {
        seq![Seq::<char>::empty()]
    } else {
        let prev = words(s.drop_last());
        if is_separator(s.last()) {
            prev.push(Seq::<char>::empty())
        } else {
            prev.update(prev.len() - 1, prev.last().push(s.last()))
        }
    }
}

/// A word with its first character upper-cased and the rest kept; an empty
/// word stays empty.
pub open spec fn capitalize(w: Seq<char>) -> Seq<char> {
    if w.len() == 0 {
        Seq::empty()
    } else {
        upper_chars(w[0]) + w.drop_first()
    }
}

/// The characters that upper-casing `c` yields: on ASCII the ASCII mapping
/// (what `char::to_uppercase` does there), elsewhere `uppercase_of(c)`.
pub open spec fn upper_chars(c: char) -> Seq<char> {
    if (c as u32) < 128 {
        seq![ascii_upper(c)]
    } else {
        uppercase_of(c)
    }
}

/// All characters of `s` are ASCII.
pub open spec fn is_ascii_text(s: Seq<char>) -> bool {
    forall|i: int| 0 <= i < s.len() ==> (#[trigger] s[i] as u32) < 128
}

/// The ASCII upper-case form of `c`: `a`..`z` become `A`..`Z`, anything else
/// stays.
pub open spec fn ascii_upper(c: char) -> char {
    if is_ascii_lower(c) {
        ((c as u32) - 32) as char
    } else {
        c
    }
}

/// `pascal_piece` for ASCII text, where the upper-case mapping is known.
pub open spec fn ascii_pascal_piece(s: Seq<char>, i: int) -> Seq<char> {
    if is_separator(s[i]) {
        Seq::empty()
    } else if i == 0 || is_separator(s[i - 1]) {
        seq![ascii_upper(s[i])]
    } else {
        seq![s[i]]
    }
}

/// The Pascal-case form of ASCII text.
pub open spec fn ascii_pascal_case(s: Seq<char>) -> Seq<char> {
    Seq::new(s.len(), |i: int| ascii_pascal_piece(s, i)).flatten()
}

/// Turns a variant name such as `long_name` or `long-name` into a type name
/// such as `LongName`. The result holds no `_` or `-`; on ASCII names the
/// first letter of each word is mapped from `a`..`z` to `A`..`Z` and every
/// other character of the word kept.
pub fn to_pascal_string(s: &str) -> (r: String)
    ensures
        r@ == pascal_case(s@),
        forall|k: int| 0 <= k < r@.len() ==> !is_separator(#[trigger] r@[k]),
        is_ascii_text(s@) ==> r@ == ascii_pascal_case(s@),
{
    let v = chars_of(s);
    let mut out = String::new();
    let mut i: usize = 0;
    while i < v.len()
        invariant
            v@ == s@,
            i <= v@.len(),
            out@ == Seq::new(i as nat, |j: int| pascal_piece(s@, j)).flatten(),
            forall|k: int| 0 <= k < out@.len() ==> !is_separator(#[trigger] out@[k]),
            is_ascii_text(s@) ==> out@ == Seq::new(i as nat, |j: int| ascii_pascal_piece(s@, j)).flatten(),
        decreases v@.len() - i,
    {
        let c = v[i];
        let ghost piece = pascal_piece(s@, i as int);
        let ghost apiece = ascii_pascal_piece(s@, i as int);
        let ghost old_out = out@;
        if c == '_' || c == '-' {
        } else if i == 0 || v[i - 1] == '_' || v[i - 1] == '-' {
            let up = to_uppercase_chars(c);
            assert(up@ == upper_chars(c));
            let mut k: usize = 0;
            let ghost base = out@;
            while k < up.len()
                invariant
                    k <= up@.len(),
                    out@ == base + up@.take(k as int),
                    forall|q: int| 0 <= q < base.len() ==> !is_separator(#[trigger] base[q]),
                    forall|q: int| 0 <= q < up@.len() ==> !is_separator(#[trigger] up@[q]),
                decreases up@.len() - k,
            {
                push_char(&mut out, up[k]);
                assert(up@.take(k + 1) == up@.take(k as int).push(up@[k as int]));
                k = k + 1;
            }
            assert(up@.take(up@.len() as int) == up@);
            assert forall|q: int| 0 <= q < out@.len() implies !is_separator(#[trigger] out@[q]) by {
                if q >= base.len() {
                    assert(out@[q] == up@[q - base.len()]);
                }
            }
            proof {
                if is_ascii_text(s@) {
                    assert((s@[i as int] as u32) < 128);
                    assert(up@ == apiece);
                }
            }
        } else {
            push_char(&mut out, c);
            assert forall|q: int| 0 <= q < out@.len() implies !is_separator(#[trigger] out@[q]) by {
                if q < old_out.len() {
                    assert(out@[q] == old_out[q]);
                }
            }
        }
        proof {
            let prev = Seq::new(i as nat, |j: int| pascal_piece(s@, j));
            assert(Seq::new((i + 1) as nat, |j: int| pascal_piece(s@, j)) == prev.push(piece));
            prev.lemma_flatten_push(piece);
            let aprev = Seq::new(i as nat, |j: int| ascii_pascal_piece(s@, j));
            assert(Seq::new((i + 1) as nat, |j: int| ascii_pascal_piece(s@, j)) == aprev.push(apiece));
            aprev.lemma_flatten_push(apiece);
        }
        i = i + 1;
    }
    out
}

// ---------------------------------------------------------------------------
// Trimming, lines, comment-only text
// ---------------------------------------------------------------------------

/// `l` without its leading whitespace.
pub open spec fn trim_start(l: Seq<char>) -> Seq<char>
    decreases l.len(),
{
    if l.len() > 0 && is_whitespace(l[0]) {
        trim_start(l.drop_first())
    } else {
        l
    }
}

/// `l` without its trailing whitespace.
pub open spec fn trim_end(l: Seq<char>) -> Seq<char>
    decreases l.len(),
{
    if l.len() > 0 && is_whitespace(l.last()) {
        trim_end(l.drop_last())
    } else {
        l
    }
}

/// `l` without the whitespace at either end (`str::trim`).
pub open spec fn trim(l: Seq<char>) -> Seq<char> {
    trim_end(trim_start(l))
}

/// The lines of `s`: the pieces between its `\n` characters. A `\r` before a
/// `\n` stays in its line, and a final `\n` leaves an empty last line; both
/// are blank once trimmed, so for `comment_only` this agrees with `str::lines`.
pub open spec fn lines(s: Seq<char>) -> Seq<Seq<char>>
    decreases s.len(),
{
    if s.len() == 0 {
        seq![Seq::<char>::empty()]
    } else {
        let prev = lines(s.drop_last());
        if s.last() == '\n' {
            prev.push(Seq::<char>::empty())
        } else {
            prev.update(prev.len() - 1, prev.last().push(s.last()))
        }
    }
}

/// A line with one trailing `\r` removed, if it has one.
pub open spec fn strip_cr(l: Seq<char>) -> Seq<char> {
    if l.len() > 0 && l.last() == '\r' {
        l.drop_last()
    } else {
        l
    }
}

/// The lines that `str::lines` yields for `s`: each piece of `lines(s)`
/// that a `\n` ends, without a `\r` just before that `\n`, then the final
/// piece only if it is not empty.
pub open spec fn str_lines(s: Seq<char>) -> Seq<Seq<char>> {
    let ls = lines(s);
    let body = ls.drop_last().map_values(|l: Seq<char>| strip_cr(l));
    if ls.last().len() > 0 {
        body.push(ls.last())
    } else {
        body
    }
}

/// A line that is blank or a comment: once trimmed it is empty or begins
/// with `#` or `//`.
pub open spec fn is_comment_line(line: Seq<char>) -> bool {
    let t = trim(line);
    ||| t.len() == 0
    ||| t[0] == '#'
    ||| t.len() >= 2 && t[0] == '/' && t[1] == '/'
}

/// Every line of `s` is blank or a comment.
pub open spec fn comment_only(s: Seq<char>) -> bool {
    forall|k: int| 0 <= k < lines(s).len() ==> #[trigger] is_comment_line(lines(s)[k])
}

/// The bounds of `v` once trimmed.
fn trim_bounds(v: &Vec<char>) -> (r: (usize, usize))
    ensures
        r.0 <= r.1 <= v@.len(),
        v@.subrange(r.0 as int, r.1 as int) == trim(v@),
{
    let mut p: usize = 0;
    assert(v@.skip(0) == v@);
    while p < v.len() && char_is_whitespace(v[p])
        invariant
            p <= v@.len(),
            trim_start(v@) == trim_start(v@.skip(p as int)),
        decreases v@.len() - p,
    {
        assert(v@.skip(p as int).drop_first() == v@.skip(p + 1));
        p = p + 1;
    }
    if p < v.len() {
        assert(v@.skip(p as int)[0] == v@[p as int]);
    } else {
        assert(v@.skip(p as int).len() == 0);
    }
    assert(trim_start(v@) == v@.skip(p as int));
    let mut q: usize = v.len();
    assert(v@.subrange(p as int, q as int) == v@.skip(p as int));
    while q > p && char_is_whitespace(v[q - 1])
        invariant
            p <= q <= v@.len(),
            trim(v@) == trim_end(v@.subrange(p as int, q as int)),
        decreases q - p,
    {
        assert(v@.subrange(p as int, q as int).drop_last() == v@.subrange(p as int, q - 1));
        q = q - 1;
    }
    (p, q)
}

/// Trims the whitespace at both ends of `s` (`str::trim`).
pub fn trim_text(s: &str) -> (r: String)
    ensures
        r@ == trim(s@),
{
    let v = chars_of(s);
    let (p, q) = trim_bounds(&v);
    string_from_range(&v, p, q)
}

/// Decides `is_comment_line`.
fn line_is_comment(v: &Vec<char>) -> (b: bool)
    ensures
        b == is_comment_line(v@),
{
    let (p, q) = trim_bounds(v);
    let ghost t = v@.subrange(p as int, q as int);
    if p == q {
        true
    } else if v[p] == '#' {
        assert(t[0] == v@[p as int]);
        true
    } else {
        assert(t[0] == v@[p as int]);
        if q - p >= 2 {
            assert(t[1] == v@[p + 1]);
            v[p] == '/' && v[p + 1] == '/'
        } else {
            false
        }
    }
}

/// Whether every line of a script statement is blank or a comment (a line is
/// a comment once trimmed it begins with `#` or `//`).
pub fn is_comment_only(s: &str) -> (b: bool)
    ensures
        b == comment_only(s@),
{
    let v = chars_of(s);
    let mut cur: Vec<char> = Vec::new();
    let mut ok = true;
    let mut i: usize = 0;
    assert(s@.take(0) =~= Seq::<char>::empty());
    while i < v.len()
        invariant
            v@ == s@,
            i <= v@.len(),
            lines(s@.take(i as int)).len() >= 1,
            lines(s@.take(i as int)).last() == cur@,
            ok == (forall|k: int|
                0 <= k < lines(s@.take(i as int)).len() - 1 ==> #[trigger] is_comment_line(
                    lines(s@.take(i as int))[k],
                )),
        decreases v@.len() - i,
    {
        let ghost pre = lines(s@.take(i as int));
        let ghost next = s@.take(i + 1);
        assert(next.drop_last() == s@.take(i as int));
        assert(next.last() == v@[i as int]);
        if v[i] == '\n' {
            let c_ok = line_is_comment(&cur);
            assert(lines(next) == pre.push(Seq::<char>::empty()));
            assert(ok && c_ok <==> (forall|k: int|
                0 <= k < lines(next).len() - 1 ==> #[trigger] is_comment_line(lines(next)[k]))) by {
                if ok && c_ok {
                    assert forall|k: int| 0 <= k < lines(next).len() - 1 implies #[trigger] is_comment_line(
                        lines(next)[k],
                    ) by {
                        if k < pre.len() - 1 {
                            assert(lines(next)[k] == pre[k]);
                        } else {
                            assert(lines(next)[k] == cur@);
                        }
                    }
                }
                if !c_ok {
                    assert(lines(next)[pre.len() - 1] == cur@);
                }
                if !ok {
                    let k = choose|k: int| 0 <= k < pre.len() - 1 && !#[trigger] is_comment_line(pre[k]);
                    assert(lines(next)[k] == pre[k]);
                }
            }
            ok = ok && c_ok;
            cur = Vec::new();
        } else {
            cur.push(v[i]);
            assert(lines(next) == pre.update(pre.len() - 1, pre.last().push(v@[i as int])));
            assert forall|k: int| 0 <= k < lines(next).len() - 1 implies lines(next)[k] == pre[k] by {}
        }
        i = i + 1;
    }
    assert(s@.take(v@.len() as int) == s@);
    let last_ok = line_is_comment(&cur);
    proof {
        let ls = lines(s@);
        if ok && last_ok {
            assert forall|k: int| 0 <= k < ls.len() implies #[trigger] is_comment_line(ls[k]) by {
                if k == ls.len() - 1 {
                    assert(ls[k] == cur@);
                }
            }
        }
        if !last_ok {
            assert(!is_comment_line(ls[ls.len() - 1]));
        }
    }
    ok && last_ok
}

} // verus!
