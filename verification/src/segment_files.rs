//! The files that hold the event log: which names are sealed segments and in
//! what order they are read, the name the next sealed segment gets, when the
//! current file is sealed, which lines of a file hold events, and how a
//! legacy file is moved over.

use vstd::prelude::*;
use crate::text::{chars_of, is_blank, split_chars_on, split_on, str_is_blank, string_from_chars, u64_zero_padded, views, zero_padded};

verus! {

/// The current file reaches this many bytes: it is sealed.
pub const MAX_SEGMENT_BYTES: u64 = 500 * 1024;

/// The current file reaches this many event lines: it is sealed.
pub const MAX_SEGMENT_LINES: usize = 1000;

/// A legacy log larger than this is split (the hosting limit, with room).
pub const MAX_GITHUB_FILE_BYTES: u64 = 90 * 1024 * 1024;

// ---------------------------------------------------------------------------
// Segment names
// ---------------------------------------------------------------------------

pub open spec fn current_segment_name() -> Seq<char> {
    "events-current.ndjson"@
}

pub open spec fn legacy_segment_name() -> Seq<char> {
    "events.ndjson"@
}

/// The name of the file that takes new events.
pub fn current_segment_file_name() -> (r: String)
    ensures
        r@ == current_segment_name(),
{
    String::from_str("events-current.ndjson")
}

/// The name of the single log file of earlier versions.
pub fn legacy_segment_file_name() -> (r: String)
    ensures
        r@ == legacy_segment_name(),
{
    String::from_str("events.ndjson")
}

/// Sealed segments are the `events-*.ndjson` files other than the current one.
pub open spec fn is_sealed_name(name: Seq<char>) -> bool {
    &&& name.len() >= 7 && name.take(7) == "events-"@
    &&& name.len() >= 7 && name.skip(name.len() - 7) == ".ndjson"@
    &&& name != current_segment_name()
}

fn has_prefix(s: &Vec<char>, p: &Vec<char>) -> (r: bool)
    ensures
        r == (p@.len() <= s@.len() && s@.take(p@.len() as int) == p@),
{
    if p.len() > s.len() {
        return false;
    }
    let mut i: usize = 0;
    while i < p.len()
        invariant
            i <= p.len() <= s.len(),
            forall|k: int| 0 <= k < i ==> s@[k] == p@[k],
        decreases p.len() - i,
    {
        if s[i] != p[i] {
            assert(s@.take(p@.len() as int)[i as int] != p@[i as int]);
            return false;
        }
        i = i + 1;
    }
    assert(s@.take(p@.len() as int) == p@);
    true
}

fn has_suffix(s: &Vec<char>, p: &Vec<char>) -> (r: bool)
    ensures
        r == (p@.len() <= s@.len() && s@.skip(s@.len() - p@.len()) == p@),
{
    if p.len() > s.len() {
        return false;
    }
    let off = s.len() - p.len();
    let mut i: usize = 0;
    while i < p.len()
        invariant
            i <= p.len() <= s.len(),
            off == s.len() - p.len(),
            forall|k: int| 0 <= k < i ==> s@[off + k] == p@[k],
        decreases p.len() - i,
    {
        if s[off + i] != p[i] {
            assert(s@.skip(off as int)[i as int] != p@[i as int]);
            return false;
        }
        i = i + 1;
    }
    assert(s@.skip(off as int) == p@);
    true
}

/// Whether a file name is that of a sealed segment.
pub fn is_sealed_segment_name(name: &str) -> (r: bool)
    ensures
        r == is_sealed_name(name@),
{
    let v = chars_of(name);
    let pre = chars_of("events-");
    let suf = chars_of(".ndjson");
    let cur = chars_of("events-current.ndjson");
    proof {
        reveal_strlit("events-");
        reveal_strlit(".ndjson");
    }
    let a = has_prefix(&v, &pre);
    let b = has_suffix(&v, &suf);
    let same = crate::text::chars_eq(&v, &cur);
    a && b && !same
}

// ---------------------------------------------------------------------------
// Order of names: by characters, as file names sort
// ---------------------------------------------------------------------------

/// `a` comes no later than `b`, comparing from position `i` on: the first
/// differing character decides, and a prefix comes first.
pub open spec fn lex_le_from(a: Seq<char>, b: Seq<char>, i: nat) -> bool
    decreases a.len() - i,
{
    if i >= a.len() {
        true
    } else if i >= b.len() {
        false
    } else if a[i as int] != b[i as int] {
        a[i as int] < b[i as int]
    } else {
        lex_le_from(a, b, i + 1)
    }
}

/// Lexicographic order by character (code point), which is the byte order of
/// UTF-8 and so the order in which file names sort.
pub open spec fn lex_le(a: Seq<char>, b: Seq<char>) -> bool {
    lex_le_from(a, b, 0)
}

proof fn lemma_lex_total_from(a: Seq<char>, b: Seq<char>, i: nat)
    ensures
        lex_le_from(a, b, i) || lex_le_from(b, a, i),
    decreases a.len() - i,
{
    if i < a.len() && i < b.len() && a[i as int] == b[i as int] {
        lemma_lex_total_from(a, b, i + 1);
    }
}

proof fn lemma_lex_trans_from(a: Seq<char>, b: Seq<char>, c: Seq<char>, i: nat)
    requires
        lex_le_from(a, b, i),
        lex_le_from(b, c, i),
    ensures
        lex_le_from(a, c, i),
    decreases a.len() - i,
{
    if i < a.len() && i < b.len() && i < c.len() && a[i as int] == b[i as int] && b[i as int] == c[i as int] {
        lemma_lex_trans_from(a, b, c, i + 1);
    }
}

proof fn lemma_lex_antisym_from(a: Seq<char>, b: Seq<char>, i: nat)
    requires
        lex_le_from(a, b, i),
        lex_le_from(b, a, i),
        i <= a.len(),
        i <= b.len(),
        a.take(i as int) == b.take(i as int),
    ensures
        a == b,
    decreases a.len() - i,
{
    if i < a.len() && i < b.len() {
        assert(a[i as int] == b[i as int]);
        assert(a.take(i as int + 1) == a.take(i as int).push(a[i as int]));
        assert(b.take(i as int + 1) == b.take(i as int).push(b[i as int]));
        lemma_lex_antisym_from(a, b, i + 1);
    } else {
        assert(a.len() == i && b.len() == i);
        assert(a == a.take(i as int));
        assert(b == b.take(i as int));
    }
}

/// The order of names is total, transitive and antisymmetric.
pub proof fn lemma_lex_order(a: Seq<char>, b: Seq<char>, c: Seq<char>)
    ensures
        lex_le(a, b) || lex_le(b, a),
        lex_le(a, b) && lex_le(b, c) ==> lex_le(a, c),
        lex_le(a, b) && lex_le(b, a) ==> a == b,
{
    lemma_lex_total_from(a, b, 0);
    if lex_le(a, b) && lex_le(b, c) {
        lemma_lex_trans_from(a, b, c, 0);
    }
    if lex_le(a, b) && lex_le(b, a) {
        assert(a.take(0) == b.take(0));
        lemma_lex_antisym_from(a, b, 0);
    }
}

fn lex_le_chars(a: &Vec<char>, b: &Vec<char>) -> (r: bool)
    ensures
        r == lex_le(a@, b@),
{
    let mut i: usize = 0;
    while i < a.len() && i < b.len() && a[i] == b[i]
        invariant
            i <= a.len(),
            lex_le(a@, b@) == lex_le_from(a@, b@, i as nat),
        decreases a.len() - i,
    {
        i = i + 1;
    }
    if i >= a.len() {
        true
    } else if i >= b.len() {
        false
    } else {
        a[i] < b[i]
    }
}

/// Names in order.
pub open spec fn names_sorted(s: Seq<Seq<char>>) -> bool {
    forall|i: int, j: int| 0 <= i <= j < s.len() ==> lex_le(#[trigger] s[i], #[trigger] s[j])
}

proof fn lemma_views_insert(s: Seq<String>, p: int, x: String)
    requires
        0 <= p <= s.len(),
    ensures
        views(s.insert(p, x)) == views(s).insert(p, x@),
{
    assert(views(s.insert(p, x)) =~= views(s).insert(p, x@));
}

proof fn lemma_insert_multiset(s: Seq<Seq<char>>, p: int, x: Seq<char>)
    requires
        0 <= p <= s.len(),
    ensures
        s.insert(p, x).to_multiset() == s.to_multiset().insert(x),
{
    broadcast use vstd::seq_lib::group_to_multiset_ensures;
    let a = s.take(p);
    let b = s.skip(p);
    assert(s.insert(p, x) == (a + seq![x]) + b);
    assert(s == a + b);
    vstd::seq_lib::lemma_multiset_commutative(a + seq![x], b);
    vstd::seq_lib::lemma_multiset_commutative(a, seq![x]);
    vstd::seq_lib::lemma_multiset_commutative(a, b);
    assert(seq![x] == Seq::<Seq<char>>::empty().push(x));
    assert(Seq::<Seq<char>>::empty().to_multiset() =~= vstd::multiset::Multiset::empty()) by {
        assert(Seq::<Seq<char>>::empty().len() == 0);
    }
    assert(seq![x].to_multiset() =~= vstd::multiset::Multiset::singleton(x));
}

/// The sealed segments among the file names of the events directory, in the
/// order in which they are read: every sealed name once per occurrence,
/// sorted.
pub fn sealed_segment_names(names: Vec<String>) -> (r: Vec<String>)
    ensures
        names_sorted(views(r@)),
        views(r@).to_multiset() == views(names@).filter(|n: Seq<char>| is_sealed_name(n)).to_multiset(),
        forall|i: int| 0 <= i < r@.len() ==> is_sealed_name(#[trigger] r@[i]@),
{
    broadcast use vstd::seq_lib::group_to_multiset_ensures;
    let ghost pred = |n: Seq<char>| is_sealed_name(n);
    let ghost orig = names@;
    let mut rest = names;
    let mut out: Vec<String> = Vec::new();
    let ghost mut n: int = 0;
    while rest.len() > 0
        invariant
            0 <= n <= orig.len(),
            rest@ == orig.skip(n),
            pred == (|n: Seq<char>| is_sealed_name(n)),
            names_sorted(views(out@)),
            views(out@).to_multiset() == views(orig.take(n)).filter(pred).to_multiset(),
            forall|i: int| 0 <= i < out@.len() ==> is_sealed_name(#[trigger] out@[i]@),
        decreases rest.len(),
    {
        let x = rest.remove(0);
        proof {
            assert(x == orig[n]);
            assert(orig.take(n + 1) == orig.take(n).push(x));
            assert(views(orig.take(n + 1)) == views(orig.take(n)).push(x@));
            views(orig.take(n)).lemma_filter_push(x@, pred);
            assert(rest@ == orig.skip(n + 1));
        }
        if is_sealed_segment_name(x.as_str()) {
            assert(pred(x@));
            let xv = chars_of(x.as_str());
            let mut p: usize = 0;
            while p < out.len() && lex_le_chars(&chars_of(out[p].as_str()), &xv)
                invariant
                    p <= out.len(),
                    xv@ == x@,
                    forall|j: int| 0 <= j < p ==> lex_le(#[trigger] out@[j]@, x@),
                decreases out.len() - p,
            {
                p = p + 1;
            }
            let ghost old_out = out@;
            proof {
                if p < out.len() {
                    assert(!lex_le(out@[p as int]@, x@));
                    lemma_lex_order(out@[p as int]@, x@, x@);
                }
                assert forall|j: int| p <= j < old_out.len() implies lex_le(x@, #[trigger] old_out[j]@) by {
                    assert(views(old_out)[p as int] == old_out[p as int]@);
                    assert(views(old_out)[j] == old_out[j]@);
                    lemma_lex_order(x@, old_out[p as int]@, old_out[j]@);
                }
            }
            out.insert(p, x);
            proof {
                lemma_views_insert(old_out, p as int, x);
                lemma_insert_multiset(views(old_out), p as int, x@);
                let nv = views(out@);
                assert forall|i: int, j: int| 0 <= i <= j < nv.len() implies lex_le(#[trigger] nv[i], #[trigger] nv[j]) by {
                    let ov = views(old_out);
                    if i < p {
                        assert(nv[i] == ov[i]);
                        if j < p {
                            assert(nv[j] == ov[j]);
                        } else if j == p {
                        } else {
                            assert(nv[j] == ov[j - 1]);
                            lemma_lex_order(ov[i], x@, ov[j - 1]);
                        }
                    } else if i == p {
                        if j > p {
                            assert(nv[j] == ov[j - 1]);
                        } else {
                            lemma_lex_order(x@, x@, x@);
                        }
                    } else {
                        assert(nv[i] == ov[i - 1]);
                        assert(nv[j] == ov[j - 1]);
                    }
                }
                assert(views(orig.take(n + 1)).filter(pred) == views(orig.take(n)).filter(pred).push(x@));
                views(orig.take(n)).filter(pred).to_multiset_ensures();
                assert(views(orig.take(n + 1)).filter(pred).to_multiset() == views(orig.take(n)).filter(pred).to_multiset().insert(x@));
                assert forall|i: int| 0 <= i < out@.len() implies is_sealed_name(#[trigger] out@[i]@) by {
                    if i < p {
                        assert(out@[i] == old_out[i]);
                    } else if i > p {
                        assert(out@[i] == old_out[i - 1]);
                    }
                }
            }
        }
        else {
            assert(!pred(x@));
            assert(views(orig.take(n + 1)).filter(pred) == views(orig.take(n)).filter(pred));
        }
        proof {
            n = n + 1;
        }
    }
    assert(orig.take(n) == orig);
    out
}

/// The name of the `num`-th sealed segment: `events-` and the number written
/// with at least six digits.
pub open spec fn sealed_name(num: nat) -> Seq<char> {
    "events-"@ + zero_padded(num, 6) + ".ndjson"@
}

/// Every name that sealing gives is the name of a sealed segment (and so
/// is listed, and read, with the others).
pub proof fn lemma_sealed_name_is_sealed(num: nat)
    ensures
        is_sealed_name(sealed_name(num)),
{
    reveal_strlit("events-");
    reveal_strlit(".ndjson");
    reveal_strlit("events-current.ndjson");
    crate::text::lemma_decimal_digits(num);
    let d = crate::text::decimal(num);
    let z = zero_padded(num, 6);
    assert(z.len() > 0 && crate::text::is_digit(z[0])) by {
        if d.len() < 6 {
            assert(z[0] == '0');
        } else {
            assert(z == d);
            assert(crate::text::is_digit(d[0]));
        }
    }
    let name = sealed_name(num);
    assert(name.take(7) =~= "events-"@);
    assert(name.skip(name.len() - 7) =~= ".ndjson"@);
    assert(name[7] == z[0]);
    assert(current_segment_name()[7] == 'c');
}

proof fn lemma_zeros_value(z: Seq<char>)
    requires
        forall|i: int| 0 <= i < z.len() ==> #[trigger] z[i] == '0',
    ensures
        crate::text::digits_value(z) == 0,
    decreases z.len(),
{
    if z.len() > 0 {
        assert forall|i: int| 0 <= i < z.drop_last().len() implies #[trigger] z.drop_last()[i] == '0' by {
            assert(z.drop_last()[i] == z[i]);
        }
        lemma_zeros_value(z.drop_last());
        assert(z.last() == z[z.len() - 1]);
    }
}

proof fn lemma_leading_zeros_value(z: Seq<char>, d: Seq<char>)
    requires
        forall|i: int| 0 <= i < z.len() ==> #[trigger] z[i] == '0',
    ensures
        crate::text::digits_value(z + d) == crate::text::digits_value(d),
    decreases d.len(),
{
    if d.len() == 0 {
        assert(z + d =~= z);
        lemma_zeros_value(z);
    } else {
        lemma_leading_zeros_value(z, d.drop_last());
        assert((z + d).drop_last() =~= z + d.drop_last());
        assert((z + d).last() == d.last());
    }
}

/// Different numbers give different sealed-segment names.
pub proof fn lemma_sealed_name_injective(a: nat, b: nat)
    requires
        sealed_name(a) == sealed_name(b),
    ensures
        a == b,
{
    reveal_strlit("events-");
    reveal_strlit(".ndjson");
    let za = zero_padded(a, 6);
    let zb = zero_padded(b, 6);
    let x = sealed_name(a);
    assert(x.subrange(7, x.len() - 7) =~= za);
    assert(x.subrange(7, x.len() - 7) =~= zb);
    crate::text::lemma_decimal_digits(a);
    crate::text::lemma_decimal_digits(b);
    let da = crate::text::decimal(a);
    let db = crate::text::decimal(b);
    if da.len() < 6 {
        lemma_leading_zeros_value(Seq::new((6 - da.len()) as nat, |i: int| '0'), da);
    }
    if db.len() < 6 {
        lemma_leading_zeros_value(Seq::new((6 - db.len()) as nat, |i: int| '0'), db);
    }
}

/// `format!("events-{:06}.ndjson", num)`.
pub fn sealed_segment_name(num: u64) -> (r: String)
    ensures
        r@ == sealed_name(num as nat),
{
    let mut s = String::from_str("events-");
    let digits = u64_zero_padded(num, 6);
    s.append(digits.as_str());
    s.append(".ndjson");
    s
}

/// The name the current file gets when it is sealed: one past the number of
/// sealed segments there are.
pub fn next_sealed_segment_name(existing_count: usize) -> (r: String)
    requires
        existing_count < u64::MAX,
    ensures
        r@ == sealed_name(existing_count as nat + 1),
{
    sealed_segment_name(existing_count as u64 + 1)
}

/// A current file of this many bytes and event lines is sealed before more
/// events are appended.
pub open spec fn seal_due(size_bytes: int, line_count: int) -> bool {
    size_bytes >= MAX_SEGMENT_BYTES || line_count >= MAX_SEGMENT_LINES
}

/// Whether the current file, of the given size and number of event lines,
/// is sealed before more events are appended.
pub fn needs_seal(size_bytes: u64, line_count: usize) -> (r: bool)
    ensures
        r == seal_due(size_bytes as int, line_count as int),
{
    size_bytes >= MAX_SEGMENT_BYTES || line_count >= MAX_SEGMENT_LINES
}

// ---------------------------------------------------------------------------
// Lines of a log file
// ---------------------------------------------------------------------------

/// A line without the `\r` of a `\r\n` ending.
pub open spec fn strip_cr(l: Seq<char>) -> Seq<char> {
    if l.len() > 0 && l.last() == '\r' {
        l.drop_last()
    } else {
        l
    }
}

/// The lines of a text as `BufRead::lines` reads them: split at `\n`, the
/// `\r` of a `\r\n` ending removed (the last piece ends with no newline and
/// keeps its characters).
pub open spec fn text_lines(s: Seq<char>) -> Seq<Seq<char>> {
    let p = split_on(s, '\n');
    Seq::new(p.len(), |i: int| if i < p.len() - 1 { strip_cr(p[i]) } else { p[i] })
}

/// The lines of a text that hold something besides whitespace: the lines
/// that carry events.
pub open spec fn event_lines(s: Seq<char>) -> Seq<Seq<char>> {
    text_lines(s).filter(|l: Seq<char>| !is_blank(l))
}

/// The lines of a log file that carry events, in order.
pub fn nonblank_lines(content: &str) -> (r: Vec<String>)
    ensures
        views(r@) == event_lines(content@),
{
    let v = chars_of(content);
    let pieces = split_chars_on(&v, '\n');
    let ghost p = split_on(content@, '\n');
    let ghost lines = text_lines(content@);
    let ghost pred = |l: Seq<char>| !is_blank(l);
    assert(pieces@.map_values(|w: Vec<char>| w@) == p);
    let mut out: Vec<String> = Vec::new();
    let mut i: usize = 0;
    while i < pieces.len()
        invariant
            i <= pieces.len(),
            pieces@.map_values(|w: Vec<char>| w@) == p,
            p == split_on(content@, '\n'),
            pred == (|l: Seq<char>| !is_blank(l)),
            lines == text_lines(content@),
            lines.len() == p.len(),
            views(out@) == lines.take(i as int).filter(pred),
        decreases pieces.len() - i,
    {
        assert(pieces@[i as int]@ == p[i as int]);
        let mut line: Vec<char> = pieces[i].clone();
        assert(line@ =~= pieces@[i as int]@);
        if i + 1 < pieces.len() && line.len() > 0 && line[line.len() - 1] == '\r' {
            line.pop();
        }
        assert(line@ == lines[i as int]);
        let s = string_from_chars(&line);
        proof {
            assert(lines.take(i + 1) == lines.take(i as int).push(line@));
            lines.take(i as int).lemma_filter_push(line@, pred);
        }
        if !str_is_blank(s.as_str()) {
            let ghost before = out@;
            out.push(s);
            assert(views(out@) == views(before).push(line@));
        }
        i = i + 1;
    }
    assert(lines.take(pieces.len() as int) == lines);
    out
}

/// The number of event lines in a log file.
pub fn count_event_lines(content: &str) -> (r: usize)
    ensures
        r == event_lines(content@).len(),
{
    let lines = nonblank_lines(content);
    lines.len()
}

// ---------------------------------------------------------------------------
// Appending to the log
// ---------------------------------------------------------------------------

/// A line that appending can write: it holds something besides whitespace,
/// no newline, and does not end in `\r`.
pub open spec fn is_log_line(l: Seq<char>) -> bool {
    &&& !is_blank(l)
    &&& forall|i: int| 0 <= i < l.len() ==> #[trigger] l[i] != '\n'
    &&& l.last() != '\r'
}

/// The text that appending the lines writes: each line and a newline.
pub open spec fn lines_text(ls: Seq<Seq<char>>) -> Seq<char>
    decreases ls.len(),
{
    if ls.len() == 0 {
        Seq::empty()
    } else {
        lines_text(ls.drop_last()) + ls.last() + seq!['\n']
    }
}

/// A log text that is empty or ends its last line.
pub open spec fn ends_line(c: Seq<char>) -> bool {
    c.len() == 0 || c.last() == '\n'
}

/// The event lines of the sealed segments, in order.
pub open spec fn sealed_events(sealed: Seq<Seq<char>>) -> Seq<Seq<char>>
    decreases sealed.len(),
{
    if sealed.len() == 0 {
        Seq::empty()
    } else {
        sealed_events(sealed.drop_last()) + event_lines(sealed.last())
    }
}

/// A log directory after lines are appended to it: the texts of its sealed
/// segments in order, and the current file's text. When the current file is
/// due to be sealed (by its size in bytes and its number of event lines) it
/// becomes the next sealed segment and the lines start a new current file;
/// otherwise they are added at its end. Nothing changes for no lines.
pub open spec fn append_outcome(sealed: Seq<Seq<char>>, current: Seq<char>, lines: Seq<Seq<char>>) -> (Seq<Seq<char>>, Seq<char>) {
    if lines.len() == 0 {
        (sealed, current)
    } else if seal_due(vstd::utf8::encode_utf8(current).len() as int, event_lines(current).len() as int) {
        (sealed.push(current), lines_text(lines))
    } else {
        (sealed, current + lines_text(lines))
    }
}

proof fn lemma_split_on_extend(s: Seq<char>, l: Seq<char>, sep: char)
    requires
        forall|i: int| 0 <= i < l.len() ==> #[trigger] l[i] != sep,
    ensures
        split_on(s + l, sep) == split_on(s, sep).update(split_on(s, sep).len() - 1, split_on(s, sep).last() + l),
    decreases l.len(),
{
    crate::text::lemma_split_on_nonempty(s, sep);
    let p = split_on(s, sep);
    if l.len() == 0 {
        assert(s + l =~= s);
        assert(p.last() + l =~= p.last());
        assert(p.update(p.len() - 1, p.last()) =~= p);
    } else {
        let l0 = l.drop_last();
        assert forall|i: int| 0 <= i < l0.len() implies #[trigger] l0[i] != sep by {
            assert(l0[i] == l[i]);
        }
        lemma_split_on_extend(s, l0, sep);
        assert((s + l).drop_last() =~= s + l0);
        assert((s + l).last() == l.last());
        assert(l[l.len() - 1] != sep);
        let prev = split_on(s + l0, sep);
        assert(prev.len() == p.len());
        assert(prev.last() == p.last() + l0);
        assert((p.last() + l0).push(l.last()) =~= p.last() + l);
        assert(prev.update(prev.len() - 1, prev.last().push(l.last())) =~= p.update(p.len() - 1, p.last() + l));
    }
}

proof fn lemma_event_lines_one_more(c: Seq<char>, l: Seq<char>)
    requires
        ends_line(c),
        is_log_line(l),
    ensures
        event_lines(c + l + seq!['\n']) == event_lines(c).push(l),
        ends_line(c + l + seq!['\n']),
{
    let nl = seq!['\n'];
    let p = split_on(c, '\n');
    crate::text::lemma_split_on_nonempty(c, '\n');
    if c.len() > 0 {
        crate::text::lemma_split_on_nonempty(c.drop_last(), '\n');
    }
    assert(p.last() == Seq::<char>::empty());
    lemma_split_on_extend(c, l, '\n');
    let c2 = c + l + nl;
    assert(c2.drop_last() =~= c + l);
    assert(c2.last() == '\n');
    let q = split_on(c2, '\n');
    let n = p.len();
    assert(q == p.update(n - 1, l).push(Seq::<char>::empty())) by {
        assert(p.last() + l =~= l);
    }
    let t = text_lines(c);
    let t2 = text_lines(c2);
    assert(t.last() == Seq::<char>::empty());
    assert(strip_cr(l) == l);
    assert(t2 =~= t.drop_last().push(l).push(Seq::<char>::empty()));
    assert(t =~= t.drop_last().push(Seq::<char>::empty()));
    let pred = |x: Seq<char>| !is_blank(x);
    assert(is_blank(Seq::<char>::empty()));
    t.drop_last().lemma_filter_push(Seq::<char>::empty(), pred);
    t.drop_last().lemma_filter_push(l, pred);
    t.drop_last().push(l).lemma_filter_push(Seq::<char>::empty(), pred);
}

proof fn lemma_event_lines_appended(c: Seq<char>, ls: Seq<Seq<char>>)
    requires
        ends_line(c),
        forall|i: int| 0 <= i < ls.len() ==> is_log_line(#[trigger] ls[i]),
    ensures
        event_lines(c + lines_text(ls)) == event_lines(c) + ls,
        ends_line(c + lines_text(ls)),
    decreases ls.len(),
{
    if ls.len() == 0 {
        assert(c + lines_text(ls) =~= c);
        assert(event_lines(c) + ls =~= event_lines(c));
    } else {
        let l0 = ls.drop_last();
        assert forall|i: int| 0 <= i < l0.len() implies is_log_line(#[trigger] l0[i]) by {
            assert(l0[i] == ls[i]);
        }
        lemma_event_lines_appended(c, l0);
        assert(is_log_line(ls[ls.len() - 1]));
        lemma_event_lines_one_more(c + lines_text(l0), ls.last());
        assert(c + lines_text(ls) =~= c + lines_text(l0) + ls.last() + seq!['\n']);
        assert((event_lines(c) + l0).push(ls.last()) =~= event_lines(c) + ls);
    }
}

/// Appending lines to the event log loses no event and reorders none: the
/// event lines of all segments, sealed ones first and then the current
/// file, are those from before followed by the new lines. When the current
/// file was due to be sealed it keeps its events as the next sealed segment,
/// named `sealed_name` of one past the number of sealed segments (a sealed
/// segment's name), and the new current file holds just the new lines;
/// otherwise the sealed segments stay as they are. The sealed segments are
/// those numbered 1 to their count, and the new name is none of theirs; in a
/// directory where a lower-numbered segment was removed (by a cleanup) the
/// name may be taken, and the rename then replaces that segment.
pub proof fn lemma_append_keeps_every_event(sealed: Seq<Seq<char>>, current: Seq<char>, lines: Seq<Seq<char>>)
    requires
        ends_line(current),
        forall|i: int| 0 <= i < lines.len() ==> is_log_line(#[trigger] lines[i]),
    ensures
        ({
            let (s2, c2) = append_outcome(sealed, current, lines);
            &&& sealed_events(s2) + event_lines(c2) == sealed_events(sealed) + event_lines(current) + lines
            &&& ends_line(c2)
            &&& if lines.len() > 0 && seal_due(vstd::utf8::encode_utf8(current).len() as int, event_lines(current).len() as int) {
                &&& s2 == sealed.push(current)
                &&& event_lines(c2) == lines
                &&& is_sealed_name(sealed_name((sealed.len() + 1) as nat))
                &&& forall|k: nat| 1 <= k <= sealed.len() ==> #[trigger] sealed_name(k) != sealed_name((sealed.len() + 1) as nat)
            } else {
                &&& s2 == sealed
                &&& event_lines(c2) == event_lines(current) + lines
            }
        }),
{
    lemma_sealed_name_is_sealed((sealed.len() + 1) as nat);
    assert forall|k: nat| 1 <= k <= sealed.len() implies #[trigger] sealed_name(k) != sealed_name((sealed.len() + 1) as nat) by {
        if sealed_name(k) == sealed_name((sealed.len() + 1) as nat) {
            lemma_sealed_name_injective(k, (sealed.len() + 1) as nat);
        }
    }
    if lines.len() == 0 {
        assert(event_lines(current) + lines =~= event_lines(current));
        assert(sealed_events(sealed) + event_lines(current) + lines =~= sealed_events(sealed) + event_lines(current));
    } else if seal_due(vstd::utf8::encode_utf8(current).len() as int, event_lines(current).len() as int) {
        let e: Seq<char> = Seq::empty();
        lemma_event_lines_appended(e, lines);
        assert(e + lines_text(lines) =~= lines_text(lines));
        assert(split_on(e, '\n') == seq![Seq::<char>::empty()]);
        assert(text_lines(e) =~= seq![Seq::<char>::empty()]);
        assert(is_blank(Seq::<char>::empty()));
        assert(event_lines(e) =~= Seq::<Seq<char>>::empty()) by {
            Seq::<Seq<char>>::empty().lemma_filter_push(Seq::<char>::empty(), |x: Seq<char>| !is_blank(x));
            assert(Seq::<Seq<char>>::empty().push(Seq::<char>::empty()) =~= text_lines(e));
        }
        assert(event_lines(e) + lines =~= lines);
        assert(sealed.push(current).drop_last() =~= sealed);
        assert(sealed_events(sealed.push(current)) == sealed_events(sealed) + event_lines(current));
        assert(sealed_events(sealed) + event_lines(current) + lines =~= sealed_events(sealed.push(current)) + lines);
    } else {
        lemma_event_lines_appended(current, lines);
        assert(sealed_events(sealed) + (event_lines(current) + lines) =~= sealed_events(sealed) + event_lines(current) + lines);
    }
}

// ---------------------------------------------------------------------------
// Moving a legacy log over
// ---------------------------------------------------------------------------

/// What becomes of a legacy `events.ndjson`.
#[derive(Debug, Clone, Copy, PartialEq, Eq, Structural)]
pub enum LegacyMigration {
    /// Renamed to `events-000001.ndjson`.
    RenameToFirstSegment,
    /// Appended to the existing `events-000001.ndjson`, then removed.
    AppendToFirstSegment,
    /// Too large for one file: split into segments, then removed.
    SplitIntoSegments,
}

/// A legacy log within the size limit becomes the first segment (appended to
/// it when that file already exists); a larger one is split.
pub fn plan_legacy_migration(legacy_bytes: u64, first_segment_exists: bool) -> (r: LegacyMigration)
    ensures
        legacy_bytes <= MAX_GITHUB_FILE_BYTES && !first_segment_exists ==> r == LegacyMigration::RenameToFirstSegment,
        legacy_bytes <= MAX_GITHUB_FILE_BYTES && first_segment_exists ==> r == LegacyMigration::AppendToFirstSegment,
        legacy_bytes > MAX_GITHUB_FILE_BYTES ==> r == LegacyMigration::SplitIntoSegments,
{
    if legacy_bytes <= MAX_GITHUB_FILE_BYTES {
        if !first_segment_exists {
            LegacyMigration::RenameToFirstSegment
        } else {
            LegacyMigration::AppendToFirstSegment
        }
    } else {
        LegacyMigration::SplitIntoSegments
    }
}


/// The bytes a line takes in a segment file: its UTF-8 encoding and the
/// newline after it.
pub open spec fn line_bytes(l: Seq<char>) -> int {
    vstd::utf8::encode_utf8(l).len() as int + 1
}

/// The bytes a group of lines takes in a segment file.
pub open spec fn group_bytes(g: Seq<Seq<char>>) -> int
    decreases g.len(),
{
    if g.len() == 0 {
        0
    } else {
        group_bytes(g.drop_last()) + line_bytes(g.last())
    }
}

/// The lines of all groups, in order.
pub open spec fn flatten_groups(gs: Seq<Seq<Seq<char>>>) -> Seq<Seq<char>>
    decreases gs.len(),
{
    if gs.len() == 0 {
        Seq::empty()
    } else {
        flatten_groups(gs.drop_last()) + gs.last()
    }
}

/// The views of groups of strings.
pub open spec fn group_views(gs: Seq<Vec<String>>) -> Seq<Seq<Seq<char>>> {
    gs.map_values(|g: Vec<String>| views(g@))
}

/// `gs` is `lines` cut into segment files front to back, each file filled
/// as far as the limit allows: together the groups hold the lines in order;
/// there is at least one group, and only a lone group can be empty; a group
/// goes over the limit only when it is one line; and the first line of each
/// group would have taken the group before it over the limit.
pub open spec fn is_greedy_split(lines: Seq<Seq<char>>, gs: Seq<Seq<Seq<char>>>, max_bytes: int) -> bool {
    &&& gs.len() >= 1
    &&& flatten_groups(gs) == lines
    &&& forall|i: int| 0 <= i < gs.len() ==> (#[trigger] gs[i]).len() > 0 || gs.len() == 1
    &&& forall|i: int| 0 <= i < gs.len() ==> group_bytes(#[trigger] gs[i]) <= max_bytes || gs[i].len() == 1
    &&& forall|i: int| 0 <= i < gs.len() - 1 ==> group_bytes(#[trigger] gs[i]) + line_bytes(gs[i + 1][0]) > max_bytes
}

proof fn lemma_group_views_push(gs: Seq<Vec<String>>, g: Vec<String>)
    ensures
        group_views(gs.push(g)) == group_views(gs).push(views(g@)),
{
    assert(group_views(gs.push(g)) =~= group_views(gs).push(views(g@)));
}

/// Cuts the event lines of a legacy log into the contents of consecutive
/// segment files of at most `max_bytes` each (a longer line gets a file of
/// its own).
pub fn split_into_segments(lines: &Vec<String>, max_bytes: u64) -> (r: Vec<Vec<String>>)
    requires
        forall|i: int| 0 <= i < lines@.len() ==> vstd::utf8::encode_utf8(#[trigger] lines@[i]@).len() < usize::MAX,
    ensures
        is_greedy_split(views(lines@), group_views(r@), max_bytes as int),
{
    let mut done: Vec<Vec<String>> = Vec::new();
    let mut cur: Vec<String> = Vec::new();
    let mut cur_size: u64 = 0;
    let mut i: usize = 0;
    while i < lines.len()
        invariant
            i <= lines.len(),
            forall|k: int| 0 <= k < lines@.len() ==> vstd::utf8::encode_utf8(#[trigger] lines@[k]@).len() < usize::MAX,
            flatten_groups(group_views(done@)) + views(cur@) == views(lines@).take(i as int),
            cur_size == group_bytes(views(cur@)),
            done@.len() > 0 ==> cur@.len() > 0,
            forall|k: int| 0 <= k < done@.len() ==> (#[trigger] group_views(done@)[k]).len() > 0,
            forall|k: int| 0 <= k < done@.len() ==> group_bytes(#[trigger] group_views(done@)[k]) <= max_bytes
                || group_views(done@)[k].len() == 1,
            cur_size <= max_bytes || cur@.len() <= 1,
            cur_size >= cur@.len(),
            forall|k: int| 0 <= k < done@.len() - 1 ==> group_bytes(#[trigger] group_views(done@)[k]) + line_bytes(
                group_views(done@)[k + 1][0]) > max_bytes,
            done@.len() > 0 ==> group_bytes(group_views(done@).last()) + line_bytes(views(cur@)[0]) > max_bytes,
        decreases lines.len() - i,
    {
        let line = lines[i].clone();
        assert(line@ == lines@[i as int]@);
        let ghost lv = line@;
        let n: usize = line.as_str().len();
        assert(n as int == vstd::utf8::encode_utf8(lv).len());
        let bytes: u64 = n as u64 + 1;
        let ghost old_cur = views(cur@);
        let ghost old_done = group_views(done@);
        assert(views(lines@).take(i + 1) == views(lines@).take(i as int).push(lv));
        if cur_size > 0 && (cur_size > max_bytes || bytes > max_bytes - cur_size) {
            let full = cur;
            cur = Vec::new();
            cur.push(line);
            proof {
                lemma_group_views_push(done@, full);
            }
            done.push(full);
            cur_size = bytes;
            proof {
                let gv = group_views(done@);
                assert(gv == old_done.push(old_cur));
                assert(views(cur@) == seq![lv]);
                assert(seq![lv].drop_last() == Seq::<Seq<char>>::empty());
                assert(seq![lv].last() == lv);
                assert(group_bytes(Seq::<Seq<char>>::empty()) == 0);
                assert(group_bytes(seq![lv]) == line_bytes(lv));
                assert(flatten_groups(gv) == flatten_groups(old_done) + old_cur) by {
                    assert(gv.drop_last() == old_done);
                }
                assert(flatten_groups(gv) + views(cur@) == (flatten_groups(old_done) + old_cur).push(lv));
                assert(old_cur.len() > 0);
                assert forall|k: int| 0 <= k < gv.len() - 1 implies group_bytes(#[trigger] gv[k]) + line_bytes(gv[k + 1][0]) > max_bytes by {
                    if k < gv.len() - 2 {
                        assert(gv[k] == old_done[k]);
                        assert(gv[k + 1] == old_done[k + 1]);
                    } else {
                        assert(gv[k] == old_done.last());
                        assert(gv[k + 1] == old_cur);
                    }
                }
                assert forall|k: int| 0 <= k < gv.len() implies (#[trigger] gv[k]).len() > 0 by {
                    if k < gv.len() - 1 {
                        assert(gv[k] == old_done[k]);
                    }
                }
                assert forall|k: int| 0 <= k < gv.len() implies group_bytes(#[trigger] gv[k]) <= max_bytes || gv[k].len() == 1 by {
                    if k < gv.len() - 1 {
                        assert(gv[k] == old_done[k]);
                    }
                }
            }
        } else {
            cur.push(line);
            cur_size = cur_size + bytes;
            proof {
                assert(views(cur@) == old_cur.push(lv));
                assert(views(cur@).drop_last() == old_cur);
                assert(flatten_groups(old_done) + views(cur@) == (flatten_groups(old_done) + old_cur).push(lv));
                if old_cur.len() > 0 {
                    assert(views(cur@)[0] == old_cur[0]);
                }
            }
        }
        i = i + 1;
    }
    let ghost old_done = group_views(done@);
    let ghost last = views(cur@);
    proof {
        lemma_group_views_push(done@, cur);
    }
    done.push(cur);
    proof {
        let gv = group_views(done@);
        assert(gv == old_done.push(last));
        assert(gv.drop_last() == old_done);
        assert(views(lines@).take(lines@.len() as int) == views(lines@));
        assert forall|k: int| 0 <= k < gv.len() - 1 implies group_bytes(#[trigger] gv[k]) + line_bytes(gv[k + 1][0]) > max_bytes by {
            if k < gv.len() - 2 {
                assert(gv[k] == old_done[k]);
                assert(gv[k + 1] == old_done[k + 1]);
            } else {
                assert(gv[k] == old_done.last());
                assert(gv[k + 1] == last);
            }
        }
        assert forall|k: int| 0 <= k < gv.len() implies (#[trigger] gv[k]).len() > 0 || gv.len() == 1 by {
            if k < gv.len() - 1 {
                assert(gv[k] == old_done[k]);
            }
        }
        assert forall|k: int| 0 <= k < gv.len() implies group_bytes(#[trigger] gv[k]) <= max_bytes || gv[k].len() == 1 by {
            if k < gv.len() - 1 {
                assert(gv[k] == old_done[k]);
            }
        }
    }
    done
}

} // verus!
