//! Proved laws of the hosts-section codec: applying then reading back yields
//! the expanded entry set, an empty apply equals removal, re-applying leaves
//! exactly one freshly rendered section, stripping undoes an apply, and
//! content outside the managed section is preserved byte for byte.

use vstd::prelude::*;
use crate::hosts::apply_spec;
use crate::hosts::block_spec;
use crate::hosts::cat_rows;
use crate::hosts::domains_newline_free;
use crate::hosts::end_marker;
use crate::hosts::entry_lines;
use crate::hosts::entry_prefix;
use crate::hosts::expand_spec;
use crate::hosts::first_nl;
use crate::hosts::has_www;
use crate::hosts::is_marker_row;
use crate::hosts::is_row;
use crate::hosts::is_space;
use crate::hosts::lemma_first_nl_bounds;
use crate::hosts::lemma_render_concat;
use crate::hosts::lemma_split_unfold;
use crate::hosts::lower_char;
use crate::hosts::lower_seq;
use crate::hosts::nl;
use crate::hosts::no_marker_rows;
use crate::hosts::no_nl;
use crate::hosts::normalize_spec;
use crate::hosts::parse_lines;
use crate::hosts::parse_spec;
use crate::hosts::redirect_addr;
use crate::hosts::render_entries;
use crate::hosts::rows_trim_end;
use crate::hosts::rows_wf;
use crate::hosts::split_lines;
use crate::hosts::start_marker;
use crate::hosts::strip_lines;
use crate::hosts::strip_rows;
use crate::hosts::strip_spec;
use crate::hosts::strip_state;
use crate::hosts::trim_end_spec;
use crate::hosts::trim_spec;
use crate::hosts::trim_start_spec;
use crate::hosts::www_prefix;

verus! {

/// Lines of a concatenation, when the first part ends at a line boundary,
/// are the lines of the parts.
proof fn lemma_split_concat(a: Seq<char>, b: Seq<char>)
    requires
        a.len() == 0 || a.last() == '\n',
    ensures
        split_lines(a + b) == split_lines(a) + split_lines(b),
    decreases a.len(),
{
    if a.len() == 0 {
        assert(a + b =~= b);
        assert(split_lines(a) + split_lines(b) =~= split_lines(b));
    } else {
        lemma_first_nl_bounds(a);
        if first_nl(a) == a.len() {
            assert(a[a.len() - 1] != '\n');
        }
        let j = first_nl(a) + 1;
        lemma_split_unfold(a, j);
        let ab = a + b;
        assert forall|k: int| 0 <= k < j - 1 implies ab[k] != '\n' by {
            assert(ab[k] == a[k]);
        }
        assert(ab[j - 1] == a[j - 1]);
        lemma_split_unfold(ab, j);
        assert(ab.take(j) =~= a.take(j));
        assert(ab.skip(j) =~= a.skip(j) + b);
        if a.skip(j).len() > 0 {
            assert(a.skip(j).last() == a.last());
        }
        lemma_split_concat(a.skip(j), b);
        assert(seq![a.take(j)] + (split_lines(a.skip(j)) + split_lines(b)) =~= (seq![a.take(j)]
            + split_lines(a.skip(j))) + split_lines(b));
    }
}

/// A single well-formed row splits into itself.
proof fn lemma_split_single_row(l: Seq<char>)
    requires
        is_row(l),
    ensures
        split_lines(l) == seq![l],
{
    lemma_first_nl_bounds(l);
    if l.last() == '\n' {
        if first_nl(l) < l.len() - 1 {
            assert(l[first_nl(l)] == '\n');
            assert(false);
        }
        assert(first_nl(l) == l.len() - 1);
        assert(l.take(l.len() as int) =~= l);
        assert(l.skip(l.len() as int) =~= Seq::<char>::empty());
        assert(split_lines(Seq::<char>::empty()) =~= Seq::<Seq<char>>::empty());
        assert(seq![l] + Seq::<Seq<char>>::empty() =~= seq![l]);
    } else {
        if first_nl(l) < l.len() {
            assert(l[first_nl(l)] == '\n');
            assert(false);
        }
    }
}

/// The lines of any text form well-formed rows.
proof fn lemma_split_rows_wf(s: Seq<char>)
    ensures
        rows_wf(split_lines(s)),
    decreases s.len(),
{
    if s.len() > 0 {
        lemma_first_nl_bounds(s);
        if first_nl(s) < s.len() {
            let j = first_nl(s) + 1;
            let r0 = s.take(j);
            let rest = split_lines(s.skip(j));
            lemma_split_rows_wf(s.skip(j));
            assert forall|i: int|
                0 <= i < split_lines(s).len() implies is_row(#[trigger] split_lines(s)[i]) && (i
                < split_lines(s).len() - 1 ==> split_lines(s)[i].last() == '\n') by {
                if i == 0 {
                    assert(split_lines(s)[0] == r0);
                    assert forall|k: int| 0 <= k < r0.len() - 1 implies r0[k] != '\n' by {
                        assert(r0[k] == s[k]);
                    }
                    assert(r0.last() == s[j - 1]);
                } else {
                    assert(split_lines(s)[i] == rest[i - 1]);
                }
            }
        } else {
            assert forall|k: int| 0 <= k < s.len() - 1 implies s[k] != '\n' by {}
            assert(is_row(s));
        }
    }
}

/// Joining the lines of a text gives the text back.
proof fn lemma_cat_split(s: Seq<char>)
    ensures
        cat_rows(split_lines(s)) == s,
    decreases s.len(),
{
    if s.len() == 0 {
        assert(cat_rows(split_lines(s)) =~= s);
    } else {
        lemma_first_nl_bounds(s);
        if first_nl(s) < s.len() {
            let j = first_nl(s) + 1;
            let ls = split_lines(s);
            assert(ls == seq![s.take(j)] + split_lines(s.skip(j)));
            assert(ls.first() == s.take(j));
            assert(ls.drop_first() =~= split_lines(s.skip(j)));
            lemma_cat_split(s.skip(j));
            assert(s.take(j) + s.skip(j) =~= s);
        } else {
            let ls = split_lines(s);
            assert(ls == seq![s]);
            assert(ls.drop_first() =~= Seq::<Seq<char>>::empty());
            assert(cat_rows(Seq::<Seq<char>>::empty()) == Seq::<char>::empty());
            assert(s + Seq::<char>::empty() =~= s);
        }
    }
}

/// Joining distributes over concatenation of row sequences.
proof fn lemma_cat_concat(a: Seq<Seq<char>>, b: Seq<Seq<char>>)
    ensures
        cat_rows(a + b) == cat_rows(a) + cat_rows(b),
    decreases a.len(),
{
    if a.len() == 0 {
        assert(a + b =~= b);
        assert(cat_rows(a) + cat_rows(b) =~= cat_rows(b));
    } else {
        assert((a + b).first() == a.first());
        assert((a + b).drop_first() =~= a.drop_first() + b);
        lemma_cat_concat(a.drop_first(), b);
        assert(a.first() + (cat_rows(a.drop_first()) + cat_rows(b)) =~= (a.first() + cat_rows(
            a.drop_first(),
        )) + cat_rows(b));
    }
}

/// Joining a row sequence ends with its last row.
proof fn lemma_cat_snoc(ls: Seq<Seq<char>>)
    requires
        ls.len() > 0,
    ensures
        cat_rows(ls) == cat_rows(ls.drop_last()) + ls.last(),
{
    assert(ls =~= ls.drop_last() + seq![ls.last()]);
    lemma_cat_concat(ls.drop_last(), seq![ls.last()]);
    assert(seq![ls.last()].drop_first() =~= Seq::<Seq<char>>::empty());
    assert(cat_rows(Seq::<Seq<char>>::empty()) == Seq::<char>::empty());
    assert(cat_rows(seq![ls.last()]) =~= ls.last());
}

/// Splitting the join of well-formed rows gives the rows back.
proof fn lemma_unsplit(ls: Seq<Seq<char>>)
    requires
        rows_wf(ls),
    ensures
        split_lines(cat_rows(ls)) == ls,
    decreases ls.len(),
{
    if ls.len() == 0 {
        assert(split_lines(cat_rows(ls)) =~= ls);
    } else if ls.len() == 1 {
        assert(ls.drop_first() =~= Seq::<Seq<char>>::empty());
        assert(cat_rows(Seq::<Seq<char>>::empty()) == Seq::<char>::empty());
        assert(cat_rows(ls) =~= ls.first());
        assert(is_row(ls[0]));
        lemma_split_single_row(ls.first());
        assert(seq![ls.first()] =~= ls);
    } else {
        let l0 = ls.first();
        assert(is_row(ls[0]));
        assert(ls[0].last() == '\n');
        assert(rows_wf(ls.drop_first())) by {
            assert forall|i: int|
                0 <= i < ls.drop_first().len() implies is_row(#[trigger] ls.drop_first()[i]) && (i
                < ls.drop_first().len() - 1 ==> ls.drop_first()[i].last() == '\n') by {
                assert(ls.drop_first()[i] == ls[i + 1]);
            }
        }
        lemma_cat_concat(seq![l0], ls.drop_first());
        assert(seq![l0] + ls.drop_first() =~= ls);
        assert(seq![l0].drop_first() =~= Seq::<Seq<char>>::empty());
        assert(cat_rows(Seq::<Seq<char>>::empty()) == Seq::<char>::empty());
        assert(cat_rows(seq![l0]) =~= l0);
        assert(cat_rows(ls) == l0 + cat_rows(ls.drop_first()));
        lemma_split_concat(l0, cat_rows(ls.drop_first()));
        lemma_split_single_row(l0);
        lemma_unsplit(ls.drop_first());
        assert(seq![l0] + ls.drop_first() =~= ls);
    }
}

/// Trailing trim of a concatenation: either it stops inside `b`, or `b` is
/// all whitespace and the trim continues into `a`.
proof fn lemma_trim_end_concat(a: Seq<char>, b: Seq<char>)
    ensures
        trim_end_spec(a + b) == if trim_end_spec(b).len() > 0 {
            a + trim_end_spec(b)
        } else {
            trim_end_spec(a)
        },
    decreases b.len(),
{
    if b.len() == 0 {
        assert(a + b =~= a);
    } else if is_space(b.last()) {
        assert((a + b).last() == b.last());
        assert((a + b).drop_last() =~= a + b.drop_last());
        lemma_trim_end_concat(a, b.drop_last());
    } else {
        assert((a + b).last() == b.last());
        assert(trim_end_spec(a + b) == a + b);
        assert(trim_end_spec(b) == b);
    }
}

/// Trailing trim is idempotent.
proof fn lemma_trim_end_idem(s: Seq<char>)
    ensures
        trim_end_spec(trim_end_spec(s)) == trim_end_spec(s),
    decreases s.len(),
{
    if s.len() > 0 && is_space(s.last()) {
        lemma_trim_end_idem(s.drop_last());
    }
}

/// Trailing trim yields a prefix that does not end in whitespace.
proof fn lemma_trim_end_take(s: Seq<char>)
    ensures
        trim_end_spec(s).len() <= s.len(),
        trim_end_spec(s) == s.take(trim_end_spec(s).len() as int),
        trim_end_spec(s).len() > 0 ==> !is_space(trim_end_spec(s).last()),
    decreases s.len(),
{
    if s.len() == 0 {
        assert(s.take(0) =~= s);
    } else if is_space(s.last()) {
        lemma_trim_end_take(s.drop_last());
        assert(s.drop_last().take(trim_end_spec(s).len() as int) =~= s.take(
            trim_end_spec(s).len() as int,
        ));
    } else {
        assert(s.take(s.len() as int) =~= s);
    }
}

/// Leading trim yields a suffix that does not begin with whitespace.
proof fn lemma_trim_start_skip(s: Seq<char>)
    ensures
        trim_start_spec(s).len() <= s.len(),
        trim_start_spec(s) == s.skip(s.len() - trim_start_spec(s).len()),
        trim_start_spec(s).len() > 0 ==> !is_space(trim_start_spec(s).first()),
        trim_start_spec(s).len() > 0 ==> trim_start_spec(s).last() == s.last(),
    decreases s.len(),
{
    if s.len() == 0 {
        assert(s.skip(0) =~= s);
    } else if is_space(s.first()) {
        lemma_trim_start_skip(s.drop_first());
        let t = trim_start_spec(s);
        assert(s.drop_first().skip(s.drop_first().len() - t.len()) =~= s.skip(s.len() - t.len()));
        if t.len() > 0 {
            assert(s.drop_first().last() == s.last());
        }
    } else {
        assert(s.skip(0) =~= s);
    }
}

/// A trimmed non-empty string neither begins nor ends with whitespace.
proof fn lemma_trim_ends(s: Seq<char>)
    ensures
        trim_spec(s).len() > 0 ==> !is_space(trim_spec(s).first()),
        trim_spec(s).len() > 0 ==> !is_space(trim_spec(s).last()),
        trim_spec(s).len() <= s.len(),
{
    lemma_trim_end_take(s);
    lemma_trim_start_skip(trim_end_spec(s));
}

/// A string equal to its own trim is equal to its own trailing trim.
proof fn lemma_trim_fixed(w: Seq<char>)
    requires
        trim_spec(w) == w,
    ensures
        trim_end_spec(w) == w,
        trim_start_spec(w) == w,
{
    lemma_trim_end_take(w);
    lemma_trim_start_skip(trim_end_spec(w));
    assert(trim_end_spec(w).len() == w.len());
    assert(w.take(w.len() as int) =~= w);
    assert(trim_start_spec(w).len() == w.len());
}

/// Appending one whitespace character does not change the trim.
proof fn lemma_trim_push_space(l: Seq<char>, c: char)
    requires
        is_space(c),
    ensures
        trim_spec(l.push(c)) == trim_spec(l),
{
    assert(l.push(c).last() == c);
    assert(l.push(c).drop_last() =~= l);
}

/// Concrete facts about the fixed markers, prefixes and the newline.
proof fn lemma_text_facts()
    ensures
        nl().len() == 1,
        nl()[0] == '\n',
        is_space('\n'),
        start_marker().len() > 0,
        end_marker().len() > 0,
        no_nl(start_marker()),
        no_nl(end_marker()),
        trim_spec(start_marker()) == start_marker(),
        trim_spec(end_marker()) == end_marker(),
        start_marker() != end_marker(),
        start_marker()[0] == '#',
        end_marker()[0] == '#',
        entry_prefix().len() == 10,
        redirect_addr().len() == 9,
        no_nl(entry_prefix()),
        entry_prefix()[0] == '1',
        !is_space('1'),
        entry_prefix().take(9) == redirect_addr(),
        entry_prefix().skip(9) == seq![' '],
        is_space(' '),
        www_prefix().len() == 4,
        no_nl(www_prefix()),
        www_prefix()[0] == 'w',
        !is_space('w'),
{
    reveal_strlit("\n");
    reveal_strlit("# === TAMASHII START ===");
    reveal_strlit("# === TAMASHII END ===");
    reveal_strlit("127.0.0.1");
    reveal_strlit("127.0.0.1 ");
    reveal_strlit("www.");
    assert(trim_end_spec(start_marker()) == start_marker());
    assert(trim_start_spec(start_marker()) == start_marker());
    assert(trim_end_spec(end_marker()) == end_marker());
    assert(trim_start_spec(end_marker()) == end_marker());
    assert(start_marker()[4] != end_marker()[4] || start_marker().len() != end_marker().len());
    assert(entry_prefix().take(9) =~= redirect_addr());
    assert(entry_prefix().skip(9) =~= seq![' ']);
}

/// A newline-terminated word line: well formed, and trimming recovers the
/// word.
proof fn lemma_word_row(w: Seq<char>)
    requires
        w.len() > 0,
        no_nl(w),
        trim_spec(w) == w,
    ensures
        is_row(w + nl()),
        (w + nl()).last() == '\n',
        (w + nl()).len() > 0,
        trim_spec(w + nl()) == w,
{
    lemma_text_facts();
    lemma_trim_fixed(w);
    assert(w + nl() =~= w.push('\n'));
    lemma_trim_push_space(w, '\n');
    assert forall|k: int| 0 <= k < (w + nl()).len() - 1 implies (w + nl())[k] != '\n' by {
        assert((w + nl())[k] == w[k]);
    }
}

/// Stripping produces exactly the join of the kept rows.
proof fn lemma_strip_rows_cat(ls: Seq<Seq<char>>, in_block: bool)
    ensures
        strip_lines(ls, in_block) == cat_rows(strip_rows(ls, in_block)),
    decreases ls.len(),
{
    if ls.len() > 0 {
        let l = ls.first();
        lemma_strip_rows_cat(ls.drop_first(), true);
        lemma_strip_rows_cat(ls.drop_first(), false);
        lemma_strip_rows_cat(ls.drop_first(), in_block);
        if trim_spec(l) != start_marker() && trim_spec(l) != end_marker() && !in_block {
            let rest = strip_rows(ls.drop_first(), false);
            assert((seq![l] + rest).first() == l);
            assert((seq![l] + rest).drop_first() =~= rest);
        }
    }
}

/// Stripping a concatenation of row lists: the second list is scanned in the
/// state the first one ends in.
proof fn lemma_strip_concat(ls1: Seq<Seq<char>>, ls2: Seq<Seq<char>>, in_block: bool)
    ensures
        strip_lines(ls1 + ls2, in_block) == strip_lines(ls1, in_block) + strip_lines(
            ls2,
            strip_state(ls1, in_block),
        ),
    decreases ls1.len(),
{
    if ls1.len() == 0 {
        assert(ls1 + ls2 =~= ls2);
        assert(strip_lines(ls1, in_block) + strip_lines(ls2, strip_state(ls1, in_block)) =~=
            strip_lines(ls2, in_block));
    } else {
        let l = ls1.first();
        assert((ls1 + ls2).first() == l);
        assert((ls1 + ls2).drop_first() =~= ls1.drop_first() + ls2);
        lemma_strip_concat(ls1.drop_first(), ls2, true);
        lemma_strip_concat(ls1.drop_first(), ls2, false);
        lemma_strip_concat(ls1.drop_first(), ls2, in_block);
        if trim_spec(l) != start_marker() && trim_spec(l) != end_marker() && !in_block {
            assert(l + (strip_lines(ls1.drop_first(), false) + strip_lines(
                ls2,
                strip_state(ls1.drop_first(), false),
            )) =~= (l + strip_lines(ls1.drop_first(), false)) + strip_lines(
                ls2,
                strip_state(ls1.drop_first(), false),
            ));
        }
    }
}

/// Over marker-free rows, stripping outside a section keeps everything and
/// stays outside.
proof fn lemma_strip_no_markers_id(ls: Seq<Seq<char>>)
    requires
        no_marker_rows(ls),
    ensures
        strip_lines(ls, false) == cat_rows(ls),
        strip_state(ls, false) == false,
    decreases ls.len(),
{
    if ls.len() > 0 {
        assert(!is_marker_row(ls[0]));
        assert(no_marker_rows(ls.drop_first())) by {
            assert forall|i: int|
                0 <= i < ls.drop_first().len() implies !is_marker_row(
                #[trigger] ls.drop_first()[i],
            ) by {
                assert(ls.drop_first()[i] == ls[i + 1]);
            }
        }
        lemma_strip_no_markers_id(ls.drop_first());
    }
}

/// Over marker-free rows, stripping inside a section drops everything and
/// stays inside.
proof fn lemma_strip_in_block(ls: Seq<Seq<char>>)
    requires
        no_marker_rows(ls),
    ensures
        strip_lines(ls, true) == Seq::<char>::empty(),
        strip_state(ls, true) == true,
    decreases ls.len(),
{
    if ls.len() > 0 {
        assert(!is_marker_row(ls[0]));
        assert(no_marker_rows(ls.drop_first())) by {
            assert forall|i: int|
                0 <= i < ls.drop_first().len() implies !is_marker_row(
                #[trigger] ls.drop_first()[i],
            ) by {
                assert(ls.drop_first()[i] == ls[i + 1]);
            }
        }
        lemma_strip_in_block(ls.drop_first());
    }
}

/// The kept rows of a well-formed row list are well formed and marker-free.
proof fn lemma_strip_rows_props(ls: Seq<Seq<char>>, in_block: bool)
    requires
        rows_wf(ls),
    ensures
        rows_wf(strip_rows(ls, in_block)),
        no_marker_rows(strip_rows(ls, in_block)),
    decreases ls.len(),
{
    if ls.len() > 0 {
        let l = ls.first();
        assert(is_row(ls[0]));
        assert(rows_wf(ls.drop_first())) by {
            assert forall|i: int|
                0 <= i < ls.drop_first().len() implies is_row(#[trigger] ls.drop_first()[i]) && (i
                < ls.drop_first().len() - 1 ==> ls.drop_first()[i].last() == '\n') by {
                assert(ls.drop_first()[i] == ls[i + 1]);
            }
        }
        lemma_strip_rows_props(ls.drop_first(), true);
        lemma_strip_rows_props(ls.drop_first(), false);
        lemma_strip_rows_props(ls.drop_first(), in_block);
        if trim_spec(l) != start_marker() && trim_spec(l) != end_marker() && !in_block {
            let rest = strip_rows(ls.drop_first(), false);
            let kept = seq![l] + rest;
            assert(kept.first() == l);
            if rest.len() > 0 {
                assert(ls.len() > 1);
                assert(ls[0].last() == '\n') by {
                    if ls.len() == 1 {
                        assert(ls.drop_first().len() == 0);
                        assert(rest.len() == 0);
                    }
                }
            }
            assert forall|i: int|
                0 <= i < kept.len() implies is_row(#[trigger] kept[i]) && (i < kept.len() - 1
                ==> kept[i].last() == '\n') by {
                if i > 0 {
                    assert(kept[i] == rest[i - 1]);
                }
            }
            assert forall|i: int| 0 <= i < kept.len() implies !is_marker_row(
                #[trigger] kept[i],
            ) by {
                if i > 0 {
                    assert(kept[i] == rest[i - 1]);
                }
            }
        }
    }
}

/// Parsing skips marker-free rows seen outside the section.
proof fn lemma_parse_skip_prefix(ls1: Seq<Seq<char>>, ls2: Seq<Seq<char>>)
    requires
        no_marker_rows(ls1),
    ensures
        parse_lines(ls1 + ls2, false) == parse_lines(ls2, false),
    decreases ls1.len(),
{
    if ls1.len() == 0 {
        assert(ls1 + ls2 =~= ls2);
    } else {
        assert(!is_marker_row(ls1[0]));
        assert((ls1 + ls2).first() == ls1.first());
        assert((ls1 + ls2).drop_first() =~= ls1.drop_first() + ls2);
        assert(no_marker_rows(ls1.drop_first())) by {
            assert forall|i: int|
                0 <= i < ls1.drop_first().len() implies !is_marker_row(
                #[trigger] ls1.drop_first()[i],
            ) by {
                assert(ls1.drop_first()[i] == ls1[i + 1]);
            }
        }
        lemma_parse_skip_prefix(ls1.drop_first(), ls2);
    }
}

/// A marker-free row in front of marker-free rows.
proof fn lemma_no_marker_cons(row: Seq<char>, tail: Seq<Seq<char>>)
    requires
        !is_marker_row(row),
        no_marker_rows(tail),
    ensures
        no_marker_rows(seq![row] + tail),
{
    let ls = seq![row] + tail;
    assert forall|i: int| 0 <= i < ls.len() implies !is_marker_row(#[trigger] ls[i]) by {
        if i > 0 {
            assert(ls[i] == tail[i - 1]);
        }
    }
}

/// Lowercasing does not turn whitespace into non-whitespace or back.
proof fn lemma_lower_space(c: char)
    ensures
        is_space(lower_char(c)) == is_space(c),
{
}

/// A non-blank normalized domain neither begins nor ends with whitespace.
proof fn lemma_normalize_ends(d: Seq<char>)
    ensures
        normalize_spec(d).len() > 0 ==> !is_space(normalize_spec(d).first()),
        normalize_spec(d).len() > 0 ==> !is_space(normalize_spec(d).last()),
{
    let t = trim_spec(d);
    lemma_trim_ends(d);
    let n = normalize_spec(d);
    assert(n == lower_seq(t));
    assert(n.len() == t.len());
    if n.len() > 0 {
        assert(n.first() == lower_char(t.first()));
        assert(n.last() == lower_char(t.last()));
        lemma_lower_space(t.first());
        lemma_lower_space(t.last());
    }
}

/// The shape of one rendered entry row for a clean hostname `n`: a well
/// formed line that is no marker, and whose trim parses back to `n`.
proof fn lemma_entry_row(n: Seq<char>)
    requires
        n.len() > 0,
        no_nl(n),
        !is_space(n.first()),
        !is_space(n.last()),
    ensures
        is_row(entry_prefix() + n + nl()),
        (entry_prefix() + n + nl()).last() == '\n',
        trim_spec(entry_prefix() + n + nl()) == entry_prefix() + n,
        !is_marker_row(entry_prefix() + n + nl()),
        (entry_prefix() + n).len() >= redirect_addr().len(),
        (entry_prefix() + n).take(redirect_addr().len() as int) == redirect_addr(),
        trim_spec((entry_prefix() + n).skip(redirect_addr().len() as int)) == n,
        entry_prefix() + n != start_marker(),
        entry_prefix() + n != end_marker(),
{
    lemma_text_facts();
    let ep = entry_prefix();
    let t = ep + n;
    let row = t + nl();
    assert(row =~= t.push('\n'));
    lemma_trim_push_space(t, '\n');
    assert(t.last() == n.last());
    assert(trim_end_spec(t) == t);
    assert(t.first() == ep[0]);
    assert(trim_start_spec(t) == t);
    assert(trim_spec(row) == t);
    assert forall|k: int| 0 <= k < row.len() - 1 implies row[k] != '\n' by {
        if k < 10 {
            assert(row[k] == ep[k]);
        } else {
            assert(row[k] == n[k - 10]);
        }
    }
    assert(row.last() == '\n');
    assert(t.take(9) =~= ep.take(9));
    assert(t.skip(9) =~= seq![' '] + n);
    let u = seq![' '] + n;
    assert(u.last() == n.last());
    assert(trim_end_spec(u) == u);
    assert(u.first() == ' ');
    assert(u.drop_first() =~= n);
    assert(trim_start_spec(u) == trim_start_spec(n));
    assert(trim_start_spec(n) == n);
    assert(trim_spec(t.skip(redirect_addr().len() as int)) == n);
    assert(t != start_marker()) by {
        if t == start_marker() {
            assert(t[0] == start_marker()[0]);
        }
    }
    assert(t != end_marker()) by {
        if t == end_marker() {
            assert(t[0] == end_marker()[0]);
        }
    }
}

/// The rendered entries of a clean domain list end at a line boundary and
/// contain no marker rows.
proof fn lemma_render_rows(ds: Seq<Seq<char>>)
    requires
        domains_newline_free(ds),
    ensures
        render_entries(ds).len() == 0 || render_entries(ds).last() == '\n',
        no_marker_rows(split_lines(render_entries(ds))),
    decreases ds.len(),
{
    lemma_text_facts();
    if ds.len() == 0 {
        assert(split_lines(render_entries(ds)) =~= Seq::<Seq<char>>::empty());
    } else {
        let d = ds.first();
        let rest = ds.drop_first();
        assert(no_nl(normalize_spec(ds[0])));
        assert(domains_newline_free(rest)) by {
            assert forall|i: int| 0 <= i < rest.len() implies no_nl(
                normalize_spec(#[trigger] rest[i]),
            ) by {
                assert(rest[i] == ds[i + 1]);
            }
        }
        lemma_render_rows(rest);
        let n = normalize_spec(d);
        let e = entry_lines(d);
        let r = render_entries(ds);
        assert(r == e + render_entries(rest));
        if n.len() == 0 {
            assert(r =~= render_entries(rest));
        } else {
            lemma_normalize_ends(d);
            lemma_entry_row(n);
            let row1 = entry_prefix() + n + nl();
            if has_www(n) {
                assert(r =~= row1 + render_entries(rest));
                lemma_split_concat(row1, render_entries(rest));
                lemma_split_single_row(row1);
                lemma_no_marker_cons(row1, split_lines(render_entries(rest)));
                assert(seq![row1] + split_lines(render_entries(rest)) =~= split_lines(r));
                if render_entries(rest).len() == 0 {
                    assert(r.last() == row1.last());
                } else {
                    assert(r.last() == render_entries(rest).last());
                }
            } else {
                let n2 = www_prefix() + n;
                assert(no_nl(n2)) by {
                    assert forall|k: int| 0 <= k < n2.len() implies n2[k] != '\n' by {
                        if k < 4 {
                            assert(n2[k] == www_prefix()[k]);
                        } else {
                            assert(n2[k] == n[k - 4]);
                        }
                    }
                }
                assert(n2.first() == www_prefix()[0]);
                assert(n2.last() == n.last());
                lemma_entry_row(n2);
                let row2 = entry_prefix() + n2 + nl();
                assert(e =~= row1 + row2);
                assert(r =~= row1 + (row2 + render_entries(rest)));
                lemma_split_concat(row1, row2 + render_entries(rest));
                lemma_split_concat(row2, render_entries(rest));
                lemma_split_single_row(row1);
                lemma_split_single_row(row2);
                lemma_no_marker_cons(row2, split_lines(render_entries(rest)));
                lemma_no_marker_cons(row1, seq![row2] + split_lines(render_entries(rest)));
                assert(seq![row1] + (seq![row2] + split_lines(render_entries(rest))) =~=
                    split_lines(r));
                if render_entries(rest).len() == 0 {
                    assert(r.last() == row2.last());
                } else {
                    assert(r.last() == render_entries(rest).last());
                }
            }
        }
    }
}

/// Parsing the rendered entries followed by the end marker line, inside the
/// section, yields exactly the expanded entry set.
proof fn lemma_parse_block(ds: Seq<Seq<char>>)
    requires
        domains_newline_free(ds),
    ensures
        parse_lines(split_lines(render_entries(ds) + (end_marker() + nl())), true) == expand_spec(
            ds,
        ),
    decreases ds.len(),
{
    lemma_text_facts();
    let endrow = end_marker() + nl();
    lemma_word_row(end_marker());
    if ds.len() == 0 {
        assert(render_entries(ds) + endrow =~= endrow);
        lemma_split_single_row(endrow);
        let ls = seq![endrow];
        assert(ls.first() == endrow);
        assert(trim_spec(endrow) == end_marker());
        assert(trim_spec(endrow) != start_marker());
        assert(parse_lines(ls, true) =~= Seq::<Seq<char>>::empty());
        assert(expand_spec(ds) =~= Seq::<Seq<char>>::empty());
    } else {
        let d = ds.first();
        let rest = ds.drop_first();
        assert(no_nl(normalize_spec(ds[0])));
        assert(domains_newline_free(rest)) by {
            assert forall|i: int| 0 <= i < rest.len() implies no_nl(
                normalize_spec(#[trigger] rest[i]),
            ) by {
                assert(rest[i] == ds[i + 1]);
            }
        }
        lemma_parse_block(rest);
        let n = normalize_spec(d);
        let e = entry_lines(d);
        let s = render_entries(ds) + endrow;
        assert(render_entries(ds) == e + render_entries(rest));
        if n.len() == 0 {
            assert(s =~= render_entries(rest) + endrow);
            assert(expand_spec(ds) == expand_spec(rest));
        } else {
            lemma_normalize_ends(d);
            lemma_entry_row(n);
            let row1 = entry_prefix() + n + nl();
            let t1 = entry_prefix() + n;
            if has_www(n) {
                let tail = render_entries(rest) + endrow;
                assert(s =~= row1 + tail);
                lemma_split_concat(row1, tail);
                lemma_split_single_row(row1);
                let ls = seq![row1] + split_lines(tail);
                assert(ls.first() == row1);
                assert(ls.drop_first() =~= split_lines(tail));
                assert(trim_spec(row1) == t1);
                assert(parse_lines(ls, true) == seq![n] + parse_lines(split_lines(tail), true));
                assert(seq![n] + expand_spec(rest) =~= expand_spec(ds));
                assert(parse_lines(split_lines(s), true) == expand_spec(ds));
            } else {
                let n2 = www_prefix() + n;
                assert(no_nl(n2)) by {
                    assert forall|k: int| 0 <= k < n2.len() implies n2[k] != '\n' by {
                        if k < 4 {
                            assert(n2[k] == www_prefix()[k]);
                        } else {
                            assert(n2[k] == n[k - 4]);
                        }
                    }
                }
                assert(n2.first() == www_prefix()[0]);
                assert(n2.last() == n.last());
                lemma_entry_row(n2);
                let row2 = entry_prefix() + n2 + nl();
                let t2 = entry_prefix() + n2;
                let tail = render_entries(rest) + endrow;
                assert(e =~= row1 + row2);
                assert(s =~= row1 + (row2 + tail));
                lemma_split_concat(row1, row2 + tail);
                lemma_split_concat(row2, tail);
                lemma_split_single_row(row1);
                lemma_split_single_row(row2);
                let ls2 = seq![row2] + split_lines(tail);
                assert(ls2.first() == row2);
                assert(ls2.drop_first() =~= split_lines(tail));
                assert(trim_spec(row2) == t2);
                assert(n2.len() > 0);
                assert(parse_lines(ls2, true) == seq![n2] + parse_lines(split_lines(tail), true));
                let ls1 = seq![row1] + ls2;
                assert(ls1.first() == row1);
                assert(ls1.drop_first() =~= ls2);
                assert(trim_spec(row1) == t1);
                assert(parse_lines(ls1, true) == seq![n] + parse_lines(ls2, true));
                assert(split_lines(s) == ls1);
                assert(seq![n] + (seq![n2] + expand_spec(rest)) =~= expand_spec(ds));
                assert(parse_lines(split_lines(s), true) == expand_spec(ds));
            }
        }
    }
}

/// Trailing trim of a joined row list is the join of the trailing-trimmed
/// rows.
proof fn lemma_cat_trim_end(ls: Seq<Seq<char>>)
    ensures
        trim_end_spec(cat_rows(ls)) == cat_rows(rows_trim_end(ls)),
    decreases ls.len(),
{
    if ls.len() == 0 {
        assert(cat_rows(ls) == Seq::<char>::empty());
        assert(cat_rows(rows_trim_end(ls)) == Seq::<char>::empty());
    } else {
        lemma_cat_snoc(ls);
        lemma_trim_end_concat(cat_rows(ls.drop_last()), ls.last());
        if trim_end_spec(ls.last()).len() == 0 {
            lemma_cat_trim_end(ls.drop_last());
        } else {
            let te = trim_end_spec(ls.last());
            let rl = ls.drop_last().push(te);
            lemma_cat_snoc(rl);
            assert(rl.drop_last() =~= ls.drop_last());
            assert(rl.last() == te);
        }
    }
}

/// Trailing-trimming preserves well-formedness and marker-freedom of rows.
proof fn lemma_rows_trim_end_props(ls: Seq<Seq<char>>)
    requires
        rows_wf(ls),
        no_marker_rows(ls),
    ensures
        rows_wf(rows_trim_end(ls)),
        no_marker_rows(rows_trim_end(ls)),
    decreases ls.len(),
{
    if ls.len() > 0 {
        assert(rows_wf(ls.drop_last())) by {
            assert forall|i: int|
                0 <= i < ls.drop_last().len() implies is_row(#[trigger] ls.drop_last()[i]) && (i
                < ls.drop_last().len() - 1 ==> ls.drop_last()[i].last() == '\n') by {
                assert(ls.drop_last()[i] == ls[i]);
            }
        }
        assert(no_marker_rows(ls.drop_last())) by {
            assert forall|i: int|
                0 <= i < ls.drop_last().len() implies !is_marker_row(
                #[trigger] ls.drop_last()[i],
            ) by {
                assert(ls.drop_last()[i] == ls[i]);
            }
        }
        if trim_end_spec(ls.last()).len() == 0 {
            lemma_rows_trim_end_props(ls.drop_last());
        } else {
            let l = ls.last();
            let te = trim_end_spec(l);
            assert(is_row(ls[ls.len() - 1]));
            assert(!is_marker_row(ls[ls.len() - 1]));
            lemma_trim_end_take(l);
            assert(is_row(te)) by {
                assert forall|k: int| 0 <= k < te.len() - 1 implies te[k] != '\n' by {
                    assert(te[k] == l[k]);
                }
            }
            lemma_trim_end_idem(l);
            assert(trim_spec(te) == trim_spec(l));
            let rl = ls.drop_last().push(te);
            assert forall|i: int|
                0 <= i < rl.len() implies is_row(#[trigger] rl[i]) && (i < rl.len() - 1
                ==> rl[i].last() == '\n') by {
                if i < rl.len() - 1 {
                    assert(rl[i] == ls[i]);
                    assert(is_row(ls[i]));
                } else {
                    assert(rl[i] == te);
                }
            }
            assert forall|i: int| 0 <= i < rl.len() implies !is_marker_row(#[trigger] rl[i]) by {
                if i < rl.len() - 1 {
                    assert(rl[i] == ls[i]);
                } else {
                    assert(rl[i] == te);
                }
            }
        }
    }
}

/// The output of stripping holds no marker rows, and stripping it again
/// changes nothing.
proof fn lemma_strip_output(s: Seq<char>)
    ensures
        no_marker_rows(split_lines(strip_spec(s))),
        strip_spec(strip_spec(s)) == strip_spec(s),
{
    let ls = split_lines(s);
    lemma_split_rows_wf(s);
    lemma_strip_rows_cat(ls, false);
    lemma_strip_rows_props(ls, false);
    lemma_unsplit(strip_rows(ls, false));
    lemma_strip_no_markers_id(strip_rows(ls, false));
}

/// Appending the separating newline to a trailing-trimmed marker-free text
/// leaves its rows marker-free.
proof fn lemma_gap_rows(t: Seq<char>)
    requires
        no_marker_rows(split_lines(t)),
        trim_end_spec(t) == t,
    ensures
        no_marker_rows(split_lines(t + nl())),
        (t + nl()).len() > 0,
        (t + nl()).last() == '\n',
{
    lemma_text_facts();
    let a = t + nl();
    assert(a.last() == nl()[0]);
    if t.len() == 0 {
        assert(a =~= Seq::<char>::empty().push('\n'));
        assert(is_row(a));
        lemma_split_single_row(a);
        lemma_trim_push_space(Seq::<char>::empty(), '\n');
        assert(trim_end_spec(Seq::<char>::empty()) == Seq::<char>::empty());
        assert(trim_spec(a).len() == 0);
        let ls = seq![a];
        assert forall|i: int| 0 <= i < ls.len() implies !is_marker_row(#[trigger] ls[i]) by {
            assert(ls[i] == a);
        }
    } else {
        let rt = split_lines(t);
        lemma_split_rows_wf(t);
        lemma_cat_split(t);
        lemma_first_nl_bounds(t);
        assert(rt.len() > 0);
        lemma_cat_snoc(rt);
        let lr = rt.last();
        assert(is_row(rt[rt.len() - 1]));
        assert(!is_marker_row(rt[rt.len() - 1]));
        assert(lr.len() > 0);
        assert(lr.last() == t.last()) by {
            assert(cat_rows(rt.drop_last()) + lr == t);
            assert(t[t.len() - 1] == lr[lr.len() - 1]);
        }
        lemma_trim_end_take(t);
        assert(!is_space(t.last()));
        let lr2 = lr + nl();
        assert(lr2 =~= lr.push('\n'));
        assert(is_row(lr2)) by {
            assert forall|k: int| 0 <= k < lr2.len() - 1 implies lr2[k] != '\n' by {
                assert(lr2[k] == lr[k]);
                if k == lr.len() - 1 {
                    assert(lr[k] == lr.last());
                }
            }
        }
        let ra = rt.drop_last().push(lr2);
        lemma_cat_snoc(ra);
        assert(ra.drop_last() =~= rt.drop_last());
        assert(ra.last() == lr2);
        assert(cat_rows(ra) == cat_rows(rt.drop_last()) + lr2);
        assert(cat_rows(rt.drop_last()) + lr2 =~= (cat_rows(rt.drop_last()) + lr) + nl());
        assert(cat_rows(ra) == a);
        assert(rows_wf(ra)) by {
            assert forall|i: int|
                0 <= i < ra.len() implies is_row(#[trigger] ra[i]) && (i < ra.len() - 1
                ==> ra[i].last() == '\n') by {
                if i < ra.len() - 1 {
                    assert(ra[i] == rt[i]);
                    assert(is_row(rt[i]));
                } else {
                    assert(ra[i] == lr2);
                }
            }
        }
        lemma_unsplit(ra);
        lemma_trim_push_space(lr, '\n');
        assert forall|i: int| 0 <= i < ra.len() implies !is_marker_row(#[trigger] ra[i]) by {
            if i < ra.len() - 1 {
                assert(ra[i] == rt[i]);
                assert(!is_marker_row(rt[i]));
            } else {
                assert(ra[i] == lr2);
                assert(trim_spec(lr2) == trim_spec(lr));
            }
        }
    }
}

/// The normalized gap before a fresh section: trailing trim of the stripped
/// content, with one newline, and no marker rows anywhere in it.
proof fn lemma_apply_head(c: Seq<char>)
    ensures
        no_marker_rows(split_lines(trim_end_spec(strip_spec(c)) + nl())),
        (trim_end_spec(strip_spec(c)) + nl()).len() > 0,
        (trim_end_spec(strip_spec(c)) + nl()).last() == '\n',
        trim_end_spec(trim_end_spec(strip_spec(c))) == trim_end_spec(strip_spec(c)),
{
    let ss = strip_spec(c);
    let rs = split_lines(ss);
    lemma_strip_output(c);
    lemma_split_rows_wf(ss);
    lemma_cat_split(ss);
    lemma_cat_trim_end(rs);
    lemma_rows_trim_end_props(rs);
    lemma_unsplit(rows_trim_end(rs));
    lemma_trim_end_idem(ss);
    lemma_gap_rows(trim_end_spec(ss));
}

/// Applying a non-empty clean list and stripping again recovers exactly the
/// gap-normalized stripped content: the whole rendered section, and nothing
/// else, is removed.
proof fn lemma_strip_apply(c: Seq<char>, ds: Seq<Seq<char>>)
    requires
        ds.len() > 0,
        domains_newline_free(ds),
    ensures
        strip_spec(apply_spec(c, ds)) == trim_end_spec(strip_spec(c)) + nl(),
{
    lemma_text_facts();
    lemma_word_row(start_marker());
    lemma_word_row(end_marker());
    lemma_apply_head(c);
    let a = trim_end_spec(strip_spec(c)) + nl();
    let startrow = start_marker() + nl();
    let endrow = end_marker() + nl();
    let re = render_entries(ds);
    lemma_render_rows(ds);
    let out = apply_spec(c, ds);
    assert(out =~= a + (startrow + (re + endrow)));
    lemma_split_concat(a, startrow + (re + endrow));
    lemma_split_concat(startrow, re + endrow);
    lemma_split_single_row(startrow);
    lemma_split_concat(re, endrow);
    lemma_split_single_row(endrow);
    let ra = split_lines(a);
    let rr = split_lines(re);
    assert(split_lines(out) == ra + (seq![startrow] + (rr + seq![endrow])));
    lemma_strip_concat(ra, seq![startrow] + (rr + seq![endrow]), false);
    lemma_strip_no_markers_id(ra);
    lemma_cat_split(a);
    assert(strip_lines(ra, false) == a);
    let ls1 = seq![startrow] + (rr + seq![endrow]);
    assert(ls1.first() == startrow);
    assert(ls1.drop_first() =~= rr + seq![endrow]);
    assert(trim_spec(startrow) == start_marker());
    assert(strip_lines(ls1, false) == strip_lines(rr + seq![endrow], true));
    lemma_strip_concat(rr, seq![endrow], true);
    lemma_strip_in_block(rr);
    let ls2 = seq![endrow];
    assert(ls2.first() == endrow);
    assert(ls2.drop_first() =~= Seq::<Seq<char>>::empty());
    assert(trim_spec(endrow) == end_marker());
    assert(trim_spec(endrow) != start_marker());
    assert(strip_lines(Seq::<Seq<char>>::empty(), false) == Seq::<char>::empty());
    assert(strip_lines(ls2, true) =~= Seq::<char>::empty());
    assert(strip_lines(split_lines(out), false) =~= a);
}

/// Applying a domain list and then reading the section back yields exactly
/// the expanded entry set of the list: each non-blank normalized domain,
/// with its `www.` variant added unless the domain already carries one.
/// Holds for every content and every list whose normalized domains contain
/// no embedded newline.
pub proof fn lemma_apply_then_list(c: Seq<char>, ds: Seq<Seq<char>>)
    requires
        domains_newline_free(ds),
    ensures
        parse_spec(apply_spec(c, ds)) == expand_spec(ds),
{
    lemma_text_facts();
    if ds.len() == 0 {
        lemma_strip_output(c);
        let rs = split_lines(strip_spec(c));
        lemma_parse_skip_prefix(rs, Seq::<Seq<char>>::empty());
        assert(rs + Seq::<Seq<char>>::empty() =~= rs);
        assert(parse_lines(Seq::<Seq<char>>::empty(), false) =~= Seq::<Seq<char>>::empty());
        assert(expand_spec(ds) =~= Seq::<Seq<char>>::empty());
    } else {
        lemma_word_row(start_marker());
        lemma_apply_head(c);
        let a = trim_end_spec(strip_spec(c)) + nl();
        let startrow = start_marker() + nl();
        let endrow = end_marker() + nl();
        let re = render_entries(ds);
        lemma_render_rows(ds);
        let out = apply_spec(c, ds);
        assert(out =~= a + (startrow + (re + endrow)));
        lemma_split_concat(a, startrow + (re + endrow));
        lemma_split_concat(startrow, re + endrow);
        lemma_split_single_row(startrow);
        let ra = split_lines(a);
        let tail = split_lines(re + endrow);
        assert(split_lines(out) == ra + (seq![startrow] + tail));
        lemma_parse_skip_prefix(ra, seq![startrow] + tail);
        let ls1 = seq![startrow] + tail;
        assert(ls1.first() == startrow);
        assert(ls1.drop_first() =~= tail);
        assert(trim_spec(startrow) == start_marker());
        assert(parse_lines(ls1, false) == parse_lines(tail, true));
        lemma_parse_block(ds);
    }
}

/// Applying the empty domain list is exactly removal.
pub proof fn lemma_apply_empty_is_remove(c: Seq<char>)
    ensures
        apply_spec(c, Seq::<Seq<char>>::empty()) == strip_spec(c),
{
}

/// Re-applying: applying `d2` over content that already carries an applied
/// `d1` gives the same text as applying `d2` to the stripped content. In
/// particular exactly one managed section remains, the freshly rendered one.
pub proof fn lemma_reapply(c: Seq<char>, d1: Seq<Seq<char>>, d2: Seq<Seq<char>>)
    requires
        domains_newline_free(d1),
        d2.len() > 0,
    ensures
        apply_spec(apply_spec(c, d1), d2) == apply_spec(strip_spec(c), d2),
{
    lemma_text_facts();
    lemma_strip_output(c);
    if d1.len() == 0 {
        assert(apply_spec(c, d1) == strip_spec(c));
    } else {
        lemma_strip_apply(c, d1);
        let t = trim_end_spec(strip_spec(c));
        lemma_trim_end_idem(strip_spec(c));
        assert(t + nl() =~= t.push('\n'));
        assert(t.push('\n').last() == '\n');
        assert(t.push('\n').drop_last() =~= t);
        assert(trim_end_spec(t.push('\n')) == trim_end_spec(t));
        assert(trim_end_spec(strip_spec(apply_spec(c, d1))) == t);
        assert(trim_end_spec(strip_spec(strip_spec(c))) == t);
    }
}

/// Stripping undoes applying: on marker-free content, applying any clean
/// non-empty list and stripping again returns the content unchanged, up to
/// normalization of its trailing whitespace into one newline.
pub proof fn lemma_strip_left_inverse(c: Seq<char>, ds: Seq<Seq<char>>)
    requires
        no_marker_rows(split_lines(c)),
        ds.len() > 0,
        domains_newline_free(ds),
    ensures
        strip_spec(apply_spec(c, ds)) == trim_end_spec(c) + nl(),
{
    lemma_strip_apply(c, ds);
    lemma_split_rows_wf(c);
    lemma_strip_no_markers_id(split_lines(c));
    lemma_cat_split(c);
}

/// Content outside the managed section is untouched: stripping text made of
/// marker-free content before a rendered section and marker-free content
/// after it returns exactly the outside parts, byte for byte.
pub proof fn lemma_outside_untouched(a: Seq<char>, b: Seq<char>, ds: Seq<Seq<char>>)
    requires
        no_marker_rows(split_lines(a)),
        a.len() > 0 ==> a.last() == '\n',
        no_marker_rows(split_lines(b)),
        domains_newline_free(ds),
    ensures
        strip_spec(a + (start_marker() + nl()) + render_entries(ds) + (end_marker() + nl()) + b)
            == a + b,
{
    lemma_text_facts();
    lemma_word_row(start_marker());
    lemma_word_row(end_marker());
    let startrow = start_marker() + nl();
    let endrow = end_marker() + nl();
    let re = render_entries(ds);
    lemma_render_rows(ds);
    let out = a + startrow + re + endrow + b;
    assert(out =~= a + (startrow + (re + (endrow + b))));
    lemma_split_concat(a, startrow + (re + (endrow + b)));
    lemma_split_concat(startrow, re + (endrow + b));
    lemma_split_single_row(startrow);
    lemma_split_concat(re, endrow + b);
    lemma_split_concat(endrow, b);
    lemma_split_single_row(endrow);
    let ra = split_lines(a);
    let rr = split_lines(re);
    let rb = split_lines(b);
    assert(split_lines(out) == ra + (seq![startrow] + (rr + (seq![endrow] + rb))));
    lemma_strip_concat(ra, seq![startrow] + (rr + (seq![endrow] + rb)), false);
    lemma_strip_no_markers_id(ra);
    lemma_cat_split(a);
    let ls1 = seq![startrow] + (rr + (seq![endrow] + rb));
    assert(ls1.first() == startrow);
    assert(ls1.drop_first() =~= rr + (seq![endrow] + rb));
    assert(trim_spec(startrow) == start_marker());
    assert(strip_lines(ls1, false) == strip_lines(rr + (seq![endrow] + rb), true));
    lemma_strip_concat(rr, seq![endrow] + rb, true);
    lemma_strip_in_block(rr);
    let ls2 = seq![endrow] + rb;
    assert(ls2.first() == endrow);
    assert(ls2.drop_first() =~= rb);
    assert(trim_spec(endrow) == end_marker());
    assert(trim_spec(endrow) != start_marker());
    assert(strip_lines(ls2, true) == strip_lines(rb, false));
    lemma_strip_no_markers_id(rb);
    lemma_cat_split(b);
    assert(strip_lines(split_lines(out), false) =~= a + b);
}

} // verus!
