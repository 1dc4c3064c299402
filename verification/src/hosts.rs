//! Marker-delimited hosts-file section codec.
//!
//! A managed section is a run of lines bounded by a fixed start marker line
//! and a fixed end marker line. The codec strips such sections from arbitrary
//! text, renders a new section from a domain list, applies a list (strip,
//! then append the rendered section), and reads the blocked domains back out
//! of a section. All content outside the section is preserved verbatim,
//! including line terminators.
//!
//! Marker lines are recognised up to surrounding whitespace, so a section
//! survives incidental re-indentation and the strip/apply cycle keeps the
//! file's invariant: at most one managed section at any time.

use vstd::prelude::*;
use vstd::string::StrSliceExecFns;

verus! {

/// The fixed line that opens the managed section.
pub open spec fn start_marker() -> Seq<char> {
    "# === TAMASHII START ==="@
}

/// The fixed line that closes the managed section.
pub open spec fn end_marker() -> Seq<char> {
    "# === TAMASHII END ==="@
}

/// The loopback address each blocklist entry redirects to.
pub open spec fn redirect_addr() -> Seq<char> {
    "127.0.0.1"@
}

/// The prefix of every rendered entry line: the address and one space.
pub open spec fn entry_prefix() -> Seq<char> {
    "127.0.0.1 "@
}

/// The prefix that marks a domain as already covering its `www.` variant.
pub open spec fn www_prefix() -> Seq<char> {
    "www."@
}

/// A single newline, the terminator the codec emits.
pub open spec fn nl() -> Seq<char> {
    "\n"@
}

/// ASCII whitespace, the characters trimming removes.
pub open spec fn is_space(c: char) -> bool {
    c == ' ' || c == '\t' || c == '\n' || c == '\r' || c == '\u{0b}' || c == '\u{0c}'
}

/// `s` without its trailing whitespace.
pub open spec fn trim_end_spec(s: Seq<char>) -> Seq<char>
    decreases s.len(),
{
    if s.len() == 0 {
        s
    } else if is_space(s.last()) {
        trim_end_spec(s.drop_last())
    } else {
        s
    }
}

/// `s` without its leading whitespace.
pub open spec fn trim_start_spec(s: Seq<char>) -> Seq<char>
    decreases s.len(),
{
    if s.len() == 0 {
        s
    } else if is_space(s.first()) {
        trim_start_spec(s.drop_first())
    } else {
        s
    }
}

/// `s` without leading and trailing whitespace.
pub open spec fn trim_spec(s: Seq<char>) -> Seq<char> {
    trim_start_spec(trim_end_spec(s))
}

/// ASCII lowercasing of one character.
pub open spec fn lower_char(c: char) -> char {
    match c {
        'A' => 'a',
        'B' => 'b',
        'C' => 'c',
        'D' => 'd',
        'E' => 'e',
        'F' => 'f',
        'G' => 'g',
        'H' => 'h',
        'I' => 'i',
        'J' => 'j',
        'K' => 'k',
        'L' => 'l',
        'M' => 'm',
        'N' => 'n',
        'O' => 'o',
        'P' => 'p',
        'Q' => 'q',
        'R' => 'r',
        'S' => 's',
        'T' => 't',
        'U' => 'u',
        'V' => 'v',
        'W' => 'w',
        'X' => 'x',
        'Y' => 'y',
        'Z' => 'z',
        _ => c,
    }
}

/// ASCII lowercasing of a whole string.
pub open spec fn lower_seq(s: Seq<char>) -> Seq<char> {
    s.map_values(|c: char| lower_char(c))
}

/// Domain normalization: trim surrounding whitespace, then lowercase.
pub open spec fn normalize_spec(s: Seq<char>) -> Seq<char> {
    lower_seq(trim_spec(s))
}

/// Whether a normalized domain already names its `www.` variant.
pub open spec fn has_www(s: Seq<char>) -> bool {
    s.len() >= 4 && s.take(4) == www_prefix()
}

/// Index of the first newline in `s`, or `s.len()` if there is none.
pub open spec fn first_nl(s: Seq<char>) -> int
    decreases s.len(),
{
    if s.len() == 0 {
        0
    } else if s.first() == '\n' {
        0
    } else {
        1 + first_nl(s.drop_first())
    }
}

/// `s` cut into lines. Every line keeps its terminating newline; the final
/// line appears without one when `s` does not end in a newline.
pub open spec fn split_lines(s: Seq<char>) -> Seq<Seq<char>>
    decreases s.len(),
{
    if s.len() == 0 {
        Seq::empty()
    } else {
        let i = first_nl(s);
        if 0 <= i && i < s.len() {
            seq![s.take(i + 1)] + split_lines(s.skip(i + 1))
        } else {
            seq![s]
        }
    }
}

/// Whether a line reads as a section marker once surrounding whitespace is
/// ignored.
pub open spec fn is_marker_row(l: Seq<char>) -> bool {
    trim_spec(l) == start_marker() || trim_spec(l) == end_marker()
}

/// The characters that stripping keeps: lines of the managed section and the
/// marker lines themselves are dropped, everything else is kept verbatim.
pub open spec fn strip_lines(ls: Seq<Seq<char>>, in_block: bool) -> Seq<char>
    decreases ls.len(),
{
    if ls.len() == 0 {
        Seq::empty()
    } else {
        let l = ls.first();
        if trim_spec(l) == start_marker() {
            strip_lines(ls.drop_first(), true)
        } else if trim_spec(l) == end_marker() {
            strip_lines(ls.drop_first(), false)
        } else if in_block {
            strip_lines(ls.drop_first(), true)
        } else {
            l + strip_lines(ls.drop_first(), false)
        }
    }
}

/// Section removal over whole content.
pub open spec fn strip_spec(s: Seq<char>) -> Seq<char> {
    strip_lines(split_lines(s), false)
}

/// No newline anywhere in `s`.
pub open spec fn no_nl(s: Seq<char>) -> bool {
    forall|k: int| 0 <= k < s.len() ==> s[k] != '\n'
}

/// A well-formed row: non-empty, with a newline at most as its final
/// character.
pub open spec fn is_row(l: Seq<char>) -> bool {
    l.len() > 0 && (forall|k: int| 0 <= k < l.len() - 1 ==> l[k] != '\n')
}

/// Well-formed row sequence: every row is a row, and every row but the last
/// ends with a newline.
pub open spec fn rows_wf(ls: Seq<Seq<char>>) -> bool {
    forall|i: int|
        0 <= i < ls.len() ==> is_row(#[trigger] ls[i]) && (i < ls.len() - 1 ==> ls[i].last()
            == '\n')
}

/// No row reads as a marker line.
pub open spec fn no_marker_rows(ls: Seq<Seq<char>>) -> bool {
    forall|i: int| 0 <= i < ls.len() ==> !is_marker_row(#[trigger] ls[i])
}

/// The rows joined back into one text.
pub open spec fn cat_rows(ls: Seq<Seq<char>>) -> Seq<char>
    decreases ls.len(),
{
    if ls.len() == 0 {
        Seq::empty()
    } else {
        ls.first() + cat_rows(ls.drop_first())
    }
}

/// The rows that stripping keeps.
pub open spec fn strip_rows(ls: Seq<Seq<char>>, in_block: bool) -> Seq<Seq<char>>
    decreases ls.len(),
{
    if ls.len() == 0 {
        Seq::empty()
    } else {
        let l = ls.first();
        if trim_spec(l) == start_marker() {
            strip_rows(ls.drop_first(), true)
        } else if trim_spec(l) == end_marker() {
            strip_rows(ls.drop_first(), false)
        } else if in_block {
            strip_rows(ls.drop_first(), true)
        } else {
            seq![l] + strip_rows(ls.drop_first(), false)
        }
    }
}

/// The in-section state after scanning these rows.
pub open spec fn strip_state(ls: Seq<Seq<char>>, in_block: bool) -> bool
    decreases ls.len(),
{
    if ls.len() == 0 {
        in_block
    } else {
        let l = ls.first();
        if trim_spec(l) == start_marker() {
            strip_state(ls.drop_first(), true)
        } else if trim_spec(l) == end_marker() {
            strip_state(ls.drop_first(), false)
        } else {
            strip_state(ls.drop_first(), in_block)
        }
    }
}

/// Domain lists whose normalized entries contain no newline: the only lists
/// a rendered section can faithfully carry, since an embedded newline would
/// break the line discipline of the section.
pub open spec fn domains_newline_free(ds: Seq<Seq<char>>) -> bool {
    forall|i: int| 0 <= i < ds.len() ==> no_nl(normalize_spec(#[trigger] ds[i]))
}

/// The rows left after removing trailing whitespace from a text given by
/// rows: whitespace-only rows fall off the end, and the last remaining row
/// is itself trimmed at its end.
pub open spec fn rows_trim_end(ls: Seq<Seq<char>>) -> Seq<Seq<char>>
    decreases ls.len(),
{
    if ls.len() == 0 {
        Seq::empty()
    } else if trim_end_spec(ls.last()).len() == 0 {
        rows_trim_end(ls.drop_last())
    } else {
        ls.drop_last().push(trim_end_spec(ls.last()))
    }
}

/// `first_nl` really is the index of the first newline.
pub proof fn lemma_first_nl_bounds(s: Seq<char>)
    ensures
        0 <= first_nl(s) <= s.len(),
        first_nl(s) < s.len() ==> s[first_nl(s)] == '\n',
        forall|j: int| 0 <= j < first_nl(s) ==> s[j] != '\n',
    decreases s.len(),
{
    if s.len() > 0 && s.first() != '\n' {
        lemma_first_nl_bounds(s.drop_first());
        assert forall|j: int| 0 <= j < first_nl(s) implies s[j] != '\n' by {
            if j > 0 {
                assert(s.drop_first()[j - 1] != '\n');
            }
        }
    }
}

/// Cutting off the first line: if the characters before `j` contain no
/// newline and `j` ends the line (a newline at `j - 1`, or the end of `s`),
/// then the lines of `s` are the first `j` characters followed by the lines
/// of the rest.
pub proof fn lemma_split_unfold(s: Seq<char>, j: int)
    requires
        s.len() > 0,
        0 < j <= s.len(),
        forall|k: int| 0 <= k < j - 1 ==> s[k] != '\n',
        s[j - 1] == '\n' || j == s.len(),
    ensures
        split_lines(s) == seq![s.take(j)] + split_lines(s.skip(j)),
{
    lemma_first_nl_bounds(s);
    if s[j - 1] == '\n' {
        assert(first_nl(s) == j - 1);
        assert(s.take(j) == s.take(first_nl(s) + 1));
    } else {
        assert(j == s.len());
        assert(first_nl(s) == s.len());
        assert(s.take(j) =~= s);
        assert(s.skip(j) =~= Seq::<char>::empty());
        assert(seq![s.take(j)] + split_lines(s.skip(j)) =~= seq![s]);
    }
}

/// Builds the vector of this string's characters.
fn str_to_chars(s: &str) -> (v: Vec<char>)
    ensures
        v@ == s@,
{
    let n = s.unicode_len();
    let mut v: Vec<char> = Vec::new();
    let mut i: usize = 0;
    while i < n
        invariant
            i <= n,
            n == s@.len(),
            v@ == s@.take(i as int),
        decreases n - i,
    {
        let c = s.get_char(i);
        v.push(c);
        proof {
            assert(s@.take(i + 1) =~= s@.take(i as int).push(s@[i as int]));
        }
        i = i + 1;
    }
    proof {
        assert(s@.take(n as int) =~= s@);
    }
    v
}

/// Relies on `String: FromIterator<char>`: collecting characters builds the
/// string of exactly those characters, in order.
#[verifier::external_body]
fn chars_to_string(v: &Vec<char>) -> (s: String)
    ensures
        s@ == v@,
{
    v.iter().collect()
}

/// Whether this character is ASCII whitespace.
fn is_space_exec(c: char) -> (r: bool)
    ensures
        r == is_space(c),
{
    c == ' ' || c == '\t' || c == '\n' || c == '\r' || c == '\u{0b}' || c == '\u{0c}'
}

/// End of the line that starts at `i`: the index just past the next newline,
/// or the end of the text.
fn next_line_end(v: &Vec<char>, i: usize) -> (j: usize)
    requires
        i < v@.len(),
    ensures
        i < j <= v@.len(),
        forall|k: int| i <= k < j - 1 ==> v@[k] != '\n',
        v@[j - 1] == '\n' || j == v@.len(),
{
    let mut j = i;
    loop
        invariant
            i < v@.len(),
            i <= j <= v@.len(),
            forall|k: int| i <= k < j ==> v@[k] != '\n',
        decreases v@.len() - j,
    {
        if j == v.len() {
            return j;
        }
        if v[j] == '\n' {
            return j + 1;
        }
        j = j + 1;
    }
}

/// Trimmed bounds of `v[lo..hi]`: the subrange `a..b` holds the same
/// characters with surrounding whitespace removed.
fn trim_range(v: &Vec<char>, lo: usize, hi: usize) -> (r: (usize, usize))
    requires
        lo <= hi <= v@.len(),
    ensures
        lo <= r.0 <= r.1 <= hi,
        v@.subrange(r.0 as int, r.1 as int) == trim_spec(v@.subrange(lo as int, hi as int)),
{
    let ghost s = v@.subrange(lo as int, hi as int);
    let mut b = hi;
    while b > lo && is_space_exec(v[b - 1])
        invariant
            lo <= b <= hi <= v@.len(),
            trim_end_spec(s) == trim_end_spec(v@.subrange(lo as int, b as int)),
        decreases b,
    {
        proof {
            let cur = v@.subrange(lo as int, b as int);
            assert(cur.len() > 0 && is_space(cur.last()));
            assert(cur.drop_last() =~= v@.subrange(lo as int, b - 1));
        }
        b = b - 1;
    }
    proof {
        assert(trim_end_spec(s) == v@.subrange(lo as int, b as int));
    }
    let ghost t = trim_end_spec(s);
    let mut a = lo;
    while a < b && is_space_exec(v[a])
        invariant
            lo <= a <= b <= v@.len(),
            t == v@.subrange(lo as int, b as int),
            trim_start_spec(t) == trim_start_spec(v@.subrange(a as int, b as int)),
        decreases b - a,
    {
        proof {
            let cur = v@.subrange(a as int, b as int);
            assert(cur.len() > 0 && is_space(cur.first()));
            assert(cur.drop_first() =~= v@.subrange(a + 1, b as int));
        }
        a = a + 1;
    }
    proof {
        assert(trim_start_spec(t) == v@.subrange(a as int, b as int));
    }
    (a, b)
}

/// Whether `v[a..b]` holds exactly the characters of `pat`.
fn range_eq_str(v: &Vec<char>, a: usize, b: usize, pat: &str) -> (r: bool)
    requires
        a <= b <= v@.len(),
    ensures
        r == (v@.subrange(a as int, b as int) == pat@),
{
    let n = pat.unicode_len();
    if b - a != n {
        proof {
            assert(v@.subrange(a as int, b as int).len() != pat@.len());
        }
        return false;
    }
    let mut k: usize = 0;
    while k < n
        invariant
            k <= n,
            n == pat@.len(),
            b - a == n,
            a <= b <= v@.len(),
            forall|m: int| 0 <= m < k ==> v@.subrange(a as int, b as int)[m] == pat@[m],
        decreases n - k,
    {
        if v[a + k] != pat.get_char(k) {
            proof {
                assert(v@.subrange(a as int, b as int)[k as int] != pat@[k as int]);
            }
            return false;
        }
        k = k + 1;
    }
    proof {
        assert(v@.subrange(a as int, b as int) =~= pat@);
    }
    true
}

/// Appends `v[a..b]` to `out`.
fn push_range(out: &mut Vec<char>, v: &Vec<char>, a: usize, b: usize)
    requires
        a <= b <= v@.len(),
    ensures
        final(out)@ == old(out)@ + v@.subrange(a as int, b as int),
{
    let mut k = a;
    while k < b
        invariant
            a <= k <= b <= v@.len(),
            out@ == old(out)@ + v@.subrange(a as int, k as int),
        decreases b - k,
    {
        out.push(v[k]);
        proof {
            assert(v@.subrange(a as int, k + 1) =~= v@.subrange(a as int, k as int).push(
                v@[k as int],
            ));
        }
        k = k + 1;
    }
}

/// Appends every character of `s` to `out`.
fn append_str(out: &mut Vec<char>, s: &str)
    ensures
        final(out)@ == old(out)@ + s@,
{
    let n = s.unicode_len();
    let mut k: usize = 0;
    while k < n
        invariant
            k <= n,
            n == s@.len(),
            out@ == old(out)@ + s@.take(k as int),
        decreases n - k,
    {
        out.push(s.get_char(k));
        proof {
            assert(s@.take(k + 1) =~= s@.take(k as int).push(s@[k as int]));
        }
        k = k + 1;
    }
    proof {
        assert(s@.take(n as int) =~= s@);
    }
}

/// Core of section removal, over characters.
fn strip_chars(v: &Vec<char>) -> (out: Vec<char>)
    ensures
        out@ == strip_spec(v@),
{
    let mut out: Vec<char> = Vec::new();
    let mut in_block = false;
    let mut i: usize = 0;
    proof {
        assert(v@.skip(0) =~= v@);
    }
    while i < v.len()
        invariant
            i <= v@.len(),
            strip_spec(v@) == out@ + strip_lines(split_lines(v@.skip(i as int)), in_block),
        decreases v@.len() - i,
    {
        let j = next_line_end(v, i);
        let ghost line = v@.subrange(i as int, j as int);
        let ghost rest = v@.skip(j as int);
        proof {
            let cur = v@.skip(i as int);
            assert forall|k: int| 0 <= k < (j - i) - 1 implies cur[k] != '\n' by {
                assert(v@[i + k] != '\n');
            }
            lemma_split_unfold(cur, (j - i) as int);
            assert(cur.take((j - i) as int) =~= line);
            assert(cur.skip((j - i) as int) =~= rest);
            let ls = seq![line] + split_lines(rest);
            assert(ls.first() == line);
            assert(ls.drop_first() =~= split_lines(rest));
        }
        let (a, b) = trim_range(v, i, j);
        let is_start = range_eq_str(v, a, b, "# === TAMASHII START ===");
        let is_end = range_eq_str(v, a, b, "# === TAMASHII END ===");
        if is_start {
            in_block = true;
        } else if is_end {
            in_block = false;
        } else if !in_block {
            push_range(&mut out, v, i, j);
        }
        i = j;
    }
    proof {
        assert(v@.skip(v@.len() as int) =~= Seq::<char>::empty());
        assert(out@ =~= strip_spec(v@));
    }
    out
}

/// Removes every managed section (and any stray marker line) from the
/// content, keeping all other lines byte for byte.
pub fn remove_tamashii_block(content: &str) -> (r: String)
    ensures
        r@ == strip_spec(content@),
{
    let v = str_to_chars(content);
    let out = strip_chars(&v);
    chars_to_string(&out)
}

/// The entry lines rendered for one raw domain: nothing for a blank domain,
/// one redirect line for the normalized domain, and a second one for its
/// `www.` variant unless the domain already starts with `www.`.
pub open spec fn entry_lines(d: Seq<char>) -> Seq<char> {
    let n = normalize_spec(d);
    if n.len() == 0 {
        Seq::empty()
    } else if has_www(n) {
        entry_prefix() + n + nl()
    } else {
        entry_prefix() + n + nl() + entry_prefix() + www_prefix() + n + nl()
    }
}

/// The entry lines of a whole domain list, in input order.
pub open spec fn render_entries(ds: Seq<Seq<char>>) -> Seq<char>
    decreases ds.len(),
{
    if ds.len() == 0 {
        Seq::empty()
    } else {
        entry_lines(ds.first()) + render_entries(ds.drop_first())
    }
}

/// A full rendered section: a separating newline, the start marker line, the
/// entries, and the end marker line.
pub open spec fn block_spec(ds: Seq<Seq<char>>) -> Seq<char> {
    nl() + start_marker() + nl() + render_entries(ds) + end_marker() + nl()
}

/// Applying a domain list: an empty list removes the section, a non-empty
/// list strips any old section and appends the freshly rendered one after a
/// single normalized gap.
pub open spec fn apply_spec(c: Seq<char>, ds: Seq<Seq<char>>) -> Seq<char> {
    if ds.len() == 0 {
        strip_spec(c)
    } else {
        trim_end_spec(strip_spec(c)) + block_spec(ds)
    }
}

/// The domains read back from content: hostname tokens of redirect lines
/// inside the managed section, up to the first end marker line.
pub open spec fn parse_lines(ls: Seq<Seq<char>>, in_block: bool) -> Seq<Seq<char>>
    decreases ls.len(),
{
    if ls.len() == 0 {
        Seq::empty()
    } else {
        let t = trim_spec(ls.first());
        if t == start_marker() {
            parse_lines(ls.drop_first(), true)
        } else if t == end_marker() {
            Seq::empty()
        } else if in_block && t.len() >= redirect_addr().len() && t.take(
            redirect_addr().len() as int,
        ) == redirect_addr() {
            let d = trim_spec(t.skip(redirect_addr().len() as int));
            if d.len() > 0 {
                seq![d] + parse_lines(ls.drop_first(), true)
            } else {
                parse_lines(ls.drop_first(), true)
            }
        } else {
            parse_lines(ls.drop_first(), in_block)
        }
    }
}

/// Parsing over whole content.
pub open spec fn parse_spec(s: Seq<char>) -> Seq<Seq<char>> {
    parse_lines(split_lines(s), false)
}

/// The expanded entry set of a domain list: each normalized non-blank domain,
/// followed by its `www.` variant when the domain does not carry one itself.
pub open spec fn expand_spec(ds: Seq<Seq<char>>) -> Seq<Seq<char>>
    decreases ds.len(),
{
    if ds.len() == 0 {
        Seq::empty()
    } else {
        let n = normalize_spec(ds.first());
        let rest = expand_spec(ds.drop_first());
        if n.len() == 0 {
            rest
        } else if has_www(n) {
            seq![n] + rest
        } else {
            seq![n, www_prefix() + n] + rest
        }
    }
}

/// The views of a vector of strings.
pub open spec fn domain_views(ds: Seq<String>) -> Seq<Seq<char>> {
    ds.map_values(|d: String| d@)
}

/// Rendering a concatenated list renders each part in turn.
pub proof fn lemma_render_concat(a: Seq<Seq<char>>, b: Seq<Seq<char>>)
    ensures
        render_entries(a + b) == render_entries(a) + render_entries(b),
    decreases a.len(),
{
    if a.len() == 0 {
        assert(a + b =~= b);
        assert(render_entries(a) + render_entries(b) =~= render_entries(b));
    } else {
        assert((a + b).first() == a.first());
        assert((a + b).drop_first() =~= a.drop_first() + b);
        lemma_render_concat(a.drop_first(), b);
        assert(render_entries(a + b) =~= render_entries(a) + render_entries(b));
    }
}

/// ASCII lowercasing of one character.
fn lower_char_exec(c: char) -> (r: char)
    ensures
        r == lower_char(c),
{
    match c {
        'A' => 'a',
        'B' => 'b',
        'C' => 'c',
        'D' => 'd',
        'E' => 'e',
        'F' => 'f',
        'G' => 'g',
        'H' => 'h',
        'I' => 'i',
        'J' => 'j',
        'K' => 'k',
        'L' => 'l',
        'M' => 'm',
        'N' => 'n',
        'O' => 'o',
        'P' => 'p',
        'Q' => 'q',
        'R' => 'r',
        'S' => 's',
        'T' => 't',
        'U' => 'u',
        'V' => 'v',
        'W' => 'w',
        'X' => 'x',
        'Y' => 'y',
        'Z' => 'z',
        _ => c,
    }
}

/// Normalizes the characters `v[lo..hi]`: trim, then lowercase.
fn normalize_chars(v: &Vec<char>, lo: usize, hi: usize) -> (out: Vec<char>)
    requires
        lo <= hi <= v@.len(),
    ensures
        out@ == normalize_spec(v@.subrange(lo as int, hi as int)),
{
    let (a, b) = trim_range(v, lo, hi);
    let ghost t = trim_spec(v@.subrange(lo as int, hi as int));
    let mut out: Vec<char> = Vec::new();
    let mut k = a;
    while k < b
        invariant
            a <= k <= b <= v@.len(),
            t == v@.subrange(a as int, b as int),
            out@ == lower_seq(v@.subrange(a as int, k as int)),
        decreases b - k,
    {
        out.push(lower_char_exec(v[k]));
        proof {
            assert(lower_seq(v@.subrange(a as int, k + 1)) =~= lower_seq(
                v@.subrange(a as int, k as int),
            ).push(lower_char(v@[k as int])));
        }
        k = k + 1;
    }
    proof {
        assert(out@ =~= normalize_spec(v@.subrange(lo as int, hi as int)));
    }
    out
}

/// Whether `v[a..b]` begins with the characters of `pat`.
fn range_starts_with(v: &Vec<char>, a: usize, b: usize, pat: &str) -> (r: bool)
    requires
        a <= b <= v@.len(),
    ensures
        r == (b - a >= pat@.len() && v@.subrange(a as int, a + pat@.len()) == pat@),
{
    let n = pat.unicode_len();
    if b - a < n {
        return false;
    }
    let r = range_eq_str(v, a, a + n, pat);
    r
}

/// Normalizes one raw domain. Yields nothing when the domain is blank after
/// trimming; otherwise the normalized primary domain together with its
/// `www.` variant, unless the domain already starts with `www.`.
pub fn normalize_domain(raw: &str) -> (r: Option<(String, Option<String>)>)
    ensures
        ({
            let n = normalize_spec(raw@);
            match r {
                None => n.len() == 0,
                Some(p) => n.len() > 0 && p.0@ == n && (match p.1 {
                    None => has_www(n),
                    Some(w) => !has_www(n) && w@ == www_prefix() + n,
                }),
            }
        }),
{
    let v = str_to_chars(raw);
    proof {
        assert(v@.subrange(0, v@.len() as int) =~= v@);
    }
    let nd = normalize_chars(&v, 0, v.len());
    if nd.len() == 0 {
        return None;
    }
    let w = range_starts_with(&nd, 0, nd.len(), "www.");
    proof {
        reveal_strlit("www.");
        assert(nd@.subrange(0, nd@.len() as int) =~= nd@);
    }
    let primary = chars_to_string(&nd);
    if w {
        proof {
            assert(nd@.take(4) =~= nd@.subrange(0, "www."@.len() as int));
        }
        Some((primary, None))
    } else {
        let mut wv: Vec<char> = Vec::new();
        append_str(&mut wv, "www.");
        push_range(&mut wv, &nd, 0, nd.len());
        proof {
            assert(nd@.subrange(0, nd@.len() as int) =~= nd@);
            if has_www(nd@) {
                assert(nd@.take(4) =~= nd@.subrange(0, "www."@.len() as int));
            }
        }
        let wstr = chars_to_string(&wv);
        Some((primary, Some(wstr)))
    }
}

/// Applies a domain list to the content: removes any existing managed
/// section and, for a non-empty list, appends a freshly rendered section
/// after a single blank-collapsing gap. An empty list behaves exactly like
/// removal.
pub fn add_domains(content: &str, domains: &Vec<String>) -> (r: String)
    ensures
        r@ == apply_spec(content@, domain_views(domains@)),
{
    if domains.len() == 0 {
        return remove_tamashii_block(content);
    }
    let v = str_to_chars(content);
    let stripped = strip_chars(&v);
    let ghost sv = stripped@;
    let mut out: Vec<char> = Vec::new();
    let mut e = stripped.len();
    proof {
        assert(sv.subrange(0, sv.len() as int) =~= sv);
    }
    while e > 0 && is_space_exec(stripped[e - 1])
        invariant
            e <= sv.len(),
            sv == stripped@,
            trim_end_spec(sv) == trim_end_spec(sv.subrange(0, e as int)),
        decreases e,
    {
        proof {
            let cur = sv.subrange(0, e as int);
            assert(cur.len() > 0 && is_space(cur.last()));
            assert(cur.drop_last() =~= sv.subrange(0, e - 1));
        }
        e = e - 1;
    }
    proof {
        assert(trim_end_spec(sv) == sv.subrange(0, e as int));
    }
    push_range(&mut out, &stripped, 0, e);
    append_str(&mut out, "\n");
    append_str(&mut out, "# === TAMASHII START ===");
    append_str(&mut out, "\n");
    let ghost head = out@;
    let ghost dvs = domain_views(domains@);
    let mut k: usize = 0;
    proof {
        assert(dvs.take(0) =~= Seq::<Seq<char>>::empty());
        assert(render_entries(Seq::<Seq<char>>::empty()) == Seq::<char>::empty());
        assert(head + render_entries(dvs.take(0)) =~= head);
    }
    while k < domains.len()
        invariant
            k <= domains@.len(),
            dvs == domain_views(domains@),
            out@ == head + render_entries(dvs.take(k as int)),
        decreases domains@.len() - k,
    {
        let dv = str_to_chars(domains[k].as_str());
        proof {
            assert(dv@.subrange(0, dv@.len() as int) =~= dv@);
        }
        let nd = normalize_chars(&dv, 0, dv.len());
        let ghost n = normalize_spec(dvs[k as int]);
        proof {
            assert(dvs[k as int] == domains@[k as int]@);
            assert(nd@ == n);
        }
        if nd.len() > 0 {
            append_str(&mut out, "127.0.0.1 ");
            push_range(&mut out, &nd, 0, nd.len());
            append_str(&mut out, "\n");
            proof {
                assert(nd@.subrange(0, nd@.len() as int) =~= nd@);
            }
            let w = range_starts_with(&nd, 0, nd.len(), "www.");
            proof {
                reveal_strlit("www.");
                if nd@.len() >= 4 {
                    assert(nd@.take(4) =~= nd@.subrange(0, "www."@.len() as int));
                }
                assert(w == has_www(n));
            }
            if !w {
                append_str(&mut out, "127.0.0.1 ");
                append_str(&mut out, "www.");
                push_range(&mut out, &nd, 0, nd.len());
                append_str(&mut out, "\n");
            }
        }
        proof {
            assert(dvs.take(k + 1) =~= dvs.take(k as int) + seq![dvs[k as int]]);
            lemma_render_concat(dvs.take(k as int), seq![dvs[k as int]]);
            let single = seq![dvs[k as int]];
            assert(single.drop_first() =~= Seq::<Seq<char>>::empty());
            assert(render_entries(Seq::<Seq<char>>::empty()) == Seq::<char>::empty());
            assert(render_entries(single.drop_first()) == Seq::<char>::empty());
            assert(render_entries(single) =~= entry_lines(dvs[k as int]));
            assert(out@ =~= head + render_entries(dvs.take(k + 1)));
        }
        k = k + 1;
    }
    append_str(&mut out, "# === TAMASHII END ===");
    append_str(&mut out, "\n");
    proof {
        assert(dvs.take(dvs.len() as int) =~= dvs);
        assert(out@ =~= apply_spec(content@, dvs));
    }
    chars_to_string(&out)
}

/// Reads the blocked domains out of the content's managed section: for each
/// redirect line inside the section, the trimmed hostname token after the
/// loopback address.
pub fn get_blocked_domains(content: &str) -> (r: Vec<String>)
    ensures
        domain_views(r@) == parse_spec(content@),
{
    let v = str_to_chars(content);
    let mut acc: Vec<String> = Vec::new();
    let mut in_block = false;
    let mut i: usize = 0;
    proof {
        assert(v@.skip(0) =~= v@);
        assert(domain_views(acc@) =~= Seq::<Seq<char>>::empty());
        assert(domain_views(acc@) + parse_lines(split_lines(v@), false) =~= parse_spec(v@));
    }
    while i < v.len()
        invariant
            i <= v@.len(),
            v@ == content@,
            parse_spec(v@) == domain_views(acc@) + parse_lines(
                split_lines(v@.skip(i as int)),
                in_block,
            ),
        decreases v@.len() - i,
    {
        let j = next_line_end(&v, i);
        let ghost line = v@.subrange(i as int, j as int);
        let ghost rest = v@.skip(j as int);
        proof {
            let cur = v@.skip(i as int);
            assert forall|k: int| 0 <= k < (j - i) - 1 implies cur[k] != '\n' by {
                assert(v@[i + k] != '\n');
            }
            lemma_split_unfold(cur, (j - i) as int);
            assert(cur.take((j - i) as int) =~= line);
            assert(cur.skip((j - i) as int) =~= rest);
            let ls = seq![line] + split_lines(rest);
            assert(ls.first() == line);
            assert(ls.drop_first() =~= split_lines(rest));
        }
        let (a, b) = trim_range(&v, i, j);
        let ghost t = trim_spec(line);
        let is_start = range_eq_str(&v, a, b, "# === TAMASHII START ===");
        let is_end = range_eq_str(&v, a, b, "# === TAMASHII END ===");
        if is_start {
            in_block = true;
        } else if is_end {
            proof {
                assert(parse_lines(seq![line] + split_lines(rest), in_block)
                    =~= Seq::<Seq<char>>::empty());
                assert(domain_views(acc@) + Seq::<Seq<char>>::empty() =~= domain_views(acc@));
            }
            return acc;
        } else {
            let plen = "127.0.0.1".unicode_len();
            let entry = in_block && range_starts_with(&v, a, b, "127.0.0.1");
            proof {
                if b - a >= redirect_addr().len() {
                    assert(t.take(redirect_addr().len() as int) =~= v@.subrange(
                        a as int,
                        a + redirect_addr().len(),
                    ));
                }
            }
            if entry {
                let (c2, d2) = trim_range(&v, a + plen, b);
                proof {
                    assert(t.skip(redirect_addr().len() as int) =~= v@.subrange(a + plen, b as int));
                }
                if d2 > c2 {
                    let mut dv: Vec<char> = Vec::new();
                    push_range(&mut dv, &v, c2, d2);
                    let ds = chars_to_string(&dv);
                    let ghost oldacc = acc@;
                    let ghost dom = trim_spec(t.skip(redirect_addr().len() as int));
                    acc.push(ds);
                    proof {
                        assert(domain_views(acc@) =~= domain_views(oldacc).push(dom));
                        assert(domain_views(oldacc).push(dom) =~= domain_views(oldacc) + seq![dom]);
                        assert((domain_views(oldacc) + seq![dom]) + parse_lines(
                            split_lines(rest),
                            true,
                        ) =~= domain_views(oldacc) + (seq![dom] + parse_lines(
                            split_lines(rest),
                            true,
                        )));
                    }
                }
            }
        }
        i = j;
    }
    proof {
        assert(v@.skip(v@.len() as int) =~= Seq::<char>::empty());
        assert(domain_views(acc@) + Seq::<Seq<char>>::empty() =~= domain_views(acc@));
    }
    acc
}

} // verus!
