//! Gives the enumerations of a set of C headers the underlying type they are announced
//! with.
//!
//! Some headers announce an enumeration as `enum X : int;` and define it as
//! `typedef enum X {`. Strict parsers refuse the mismatch. Collect the announced tags of
//! all headers, then stamp the type onto each definition.
use vstd::prelude::*;

verus! {

/// What separates words.
pub open spec fn is_blank(c: char) -> bool {
    let u = c as u32;
    9 <= u <= 13 || u == 0x20 || u == 0x85 || u == 0xA0 || u == 0x1680 || 0x2000 <= u <= 0x200A || u
        == 0x2028 || u == 0x2029 || u == 0x202F || u == 0x205F || u == 0x3000
}

fn blank(c: char) -> (r: bool)
    ensures
        r == is_blank(c),
{
    let u: u32 = c as u32;
    (9 <= u && u <= 13) || u == 0x20 || u == 0x85 || u == 0xA0 || u == 0x1680 || (0x2000 <= u && u
        <= 0x200A) || u == 0x2028 || u == 0x2029 || u == 0x202F || u == 0x205F || u == 0x3000
}

/// Text without blanks at its end.
pub open spec fn trimmed_end(s: Seq<char>) -> Seq<char>
    decreases s.len(),
{
    if s.len() > 0 && is_blank(s.last()) {
        trimmed_end(s.drop_last())
    } else {
        s
    }
}

/// Text without blanks at its start.
pub open spec fn trimmed_start(s: Seq<char>) -> Seq<char>
    decreases s.len(),
{
    if s.len() > 0 && is_blank(s[0]) {
        trimmed_start(s.skip(1))
    } else {
        s
    }
}

/// Text without blanks at either end.
pub open spec fn trimmed(s: Seq<char>) -> Seq<char> {
    trimmed_end(trimmed_start(s))
}

/// The part of `text` from `from` up to `to` without blanks at either end, by its bounds.
fn trim(text: &[char], from: usize, to: usize) -> (r: (usize, usize))
    requires
        from <= to <= text@.len(),
    ensures
        from <= r.0 <= r.1 <= to,
        text@.subrange(r.0 as int, r.1 as int) == trimmed(text@.subrange(from as int, to as int)),
{
    let ghost whole = trimmed(text@.subrange(from as int, to as int));
    let mut a: usize = from;
    while a < to && blank(text[a])
        invariant
            from <= a <= to <= text@.len(),
            trimmed(text@.subrange(a as int, to as int)) == whole,
        decreases to - a,
    {
        proof {
            let s = text@.subrange(a as int, to as int);
            assert(s[0] == text@[a as int]);
            assert(s.skip(1) =~= text@.subrange(a + 1, to as int));
        }
        a += 1;
    }
    let ghost front = text@.subrange(a as int, to as int);
    proof {
        if a < to {
            assert(front[0] == text@[a as int]);
        }
        assert(trimmed_start(front) == front);
    }
    let mut b: usize = to;
    while b > a && blank(text[b - 1])
        invariant
            from <= a <= b <= to <= text@.len(),
            trimmed_end(text@.subrange(a as int, b as int)) == whole,
        decreases b,
    {
        proof {
            let s = text@.subrange(a as int, b as int);
            assert(s.last() == text@[b - 1]);
            assert(s.drop_last() =~= text@.subrange(a as int, b - 1));
        }
        b -= 1;
    }
    proof {
        let s = text@.subrange(a as int, b as int);
        if b > a {
            assert(s.last() == text@[b - 1]);
        }
    }
    (a, b)
}

/// `part` stands in `text` at `at`.
pub open spec fn stands_at(text: Seq<char>, part: Seq<char>, at: int) -> bool {
    0 <= at && at + part.len() <= text.len() && text.subrange(at, at + part.len()) == part
}

fn is_at(text: &[char], part: &[char], at: usize) -> (r: bool)
    requires
        at <= text@.len(),
    ensures
        r == stands_at(text@, part@, at as int),
{
    if text.len() - at < part.len() {
        return false;
    }
    let total: usize = text.len();
    let mut i: usize = 0;
    while i < part.len()
        invariant
            i <= part@.len(),
            at + part@.len() <= text@.len() == total,
            forall|j: int| 0 <= j < i ==> text@[at + j] == part@[j],
        decreases part@.len() - i,
    {
        if text[at + i] != part[i] {
            assert(text@.subrange(at as int, at + part@.len())[i as int] != part@[i as int]);
            return false;
        }
        i += 1;
    }
    assert(text@.subrange(at as int, at + part@.len()) =~= part@);
    true
}

/// The tag a line announces: `enum TAG : int;`, with blanks around it.
pub open spec fn announced(line: Seq<char>) -> Option<Seq<char>> {
    let s = trimmed(line);
    let (open, close) = ("enum "@, " : int;"@);
    if stands_at(s, open, 0) && stands_at(s.skip(open.len() as int), close, s.len() - open.len()
        - close.len()) {
        Some(trimmed(s.subrange(open.len() as int, s.len() - close.len())))
    } else {
        None
    }
}

/// The lines of a text.
pub open spec fn lines_of(text: Seq<char>) -> Seq<Seq<char>>
    decreases text.len(),
{
    if text.len() == 0 {
        seq![Seq::empty()]
    } else {
        let before = lines_of(text.drop_last());
        if text.last() == '\n' {
            before.push(Seq::empty())
        } else {
            before.drop_last().push(before.last().push(text.last()))
        }
    }
}

/// The tags that some lines announce, in order.
pub open spec fn tags_in(lines: Seq<Seq<char>>) -> Seq<Seq<char>>
    decreases lines.len(),
{
    if lines.len() == 0 {
        Seq::empty()
    } else {
        match announced(lines.last()) {
            Some(tag) => tags_in(lines.drop_last()).push(tag),
            None => tags_in(lines.drop_last()),
        }
    }
}

fn chars(text: &str) -> (r: Vec<char>)
    ensures
        r@ == text@,
{
    let n: usize = text.unicode_len();
    let mut out: Vec<char> = Vec::new();
    let mut i: usize = 0;
    while i < n
        invariant
            i <= n,
            n == text@.len(),
            out@ == text@.take(i as int),
        decreases n - i,
    {
        out.push(text.get_char(i));
        i += 1;
        assert(out@ =~= text@.take(i as int));
    }
    assert(out@ =~= text@);
    out
}

fn slice_of(text: &[char], from: usize, to: usize) -> (r: Vec<char>)
    requires
        from <= to <= text@.len(),
    ensures
        r@ == text@.subrange(from as int, to as int),
{
    let mut out: Vec<char> = Vec::new();
    let mut i: usize = from;
    while i < to
        invariant
            from <= i <= to <= text@.len(),
            out@ == text@.subrange(from as int, i as int),
        decreases to - i,
    {
        out.push(text[i]);
        i += 1;
        assert(out@ =~= text@.subrange(from as int, i as int));
    }
    out
}

/// The tag that the line between `from` and `to` announces.
fn tag_in_line(text: &[char], from: usize, to: usize) -> (r: Option<Vec<char>>)
    requires
        from <= to <= text@.len(),
    ensures
        r is Some == announced(text@.subrange(from as int, to as int)) is Some,
        r matches Some(t) ==> announced(text@.subrange(from as int, to as int)) == Some(t@),
{
    let open = chars("enum ");
    let close = chars(" : int;");
    proof {
        reveal_strlit("enum ");
        reveal_strlit(" : int;");
    }
    let (a, b) = trim(text, from, to);
    let line = slice_of(text, a, b);
    let ghost s = trimmed(text@.subrange(from as int, to as int));
    assert(line@ == s);
    if !is_at(line.as_slice(), open.as_slice(), 0) {
        return None;
    }
    assert(stands_at(s, "enum "@, 0));
    let rest = slice_of(line.as_slice(), open.len(), line.len());
    assert(rest@ =~= s.skip(5));
    if rest.len() < close.len() {
        return None;
    }
    let at: usize = rest.len() - close.len();
    if !is_at(rest.as_slice(), close.as_slice(), at) {
        return None;
    }
    let (x, y) = trim(line.as_slice(), open.len(), line.len() - close.len());
    Some(slice_of(line.as_slice(), x, y))
}

/// The tags a header announces with a type, in order.
pub fn announced_tags(text: &[char]) -> (r: Vec<Vec<char>>)
    ensures
        r@.map_values(|t: Vec<char>| t@) == tags_in(lines_of(text@)),
{
    let mut out: Vec<Vec<char>> = Vec::new();
    let mut start: usize = 0;
    let mut i: usize = 0;
    proof {
        assert(text@.take(0) =~= Seq::<char>::empty());
        let l = lines_of(text@.take(0));
        assert(l.drop_last() =~= Seq::<Seq<char>>::empty());
        assert(out@.map_values(|t: Vec<char>| t@) =~= Seq::<Seq<char>>::empty());
        assert(text@.subrange(0, 0) =~= Seq::<char>::empty());
    }
    while i < text.len()
        invariant
            start <= i <= text@.len(),
            lines_of(text@.take(i as int)).len() > 0,
            lines_of(text@.take(i as int)).last() == text@.subrange(start as int, i as int),
            out@.map_values(|t: Vec<char>| t@) == tags_in(lines_of(text@.take(i as int)).drop_last()),
        decreases text@.len() - i,
    {
        let ghost was = lines_of(text@.take(i as int));
        let ghost now = lines_of(text@.take(i + 1));
        proof {
            assert(text@.take(i + 1).drop_last() =~= text@.take(i as int));
            assert(text@.take(i + 1).last() == text@[i as int]);
        }
        if text[i] == '\n' {
            let ghost before = out@;
            proof {
                assert(now.drop_last() =~= was);
            }
            if let Some(tag) = tag_in_line(text, start, i) {
                out.push(tag);
                assert(out@.map_values(|t: Vec<char>| t@) =~= before.map_values(
                    |t: Vec<char>| t@,
                ).push(tag@));
            }
            start = i + 1;
            assert(text@.subrange(start as int, i + 1) =~= Seq::<char>::empty());
        } else {
            assert(now.drop_last() =~= was.drop_last());
            assert(text@.subrange(start as int, i + 1) =~= text@.subrange(start as int, i as int).push(
                text@[i as int],
            ));
        }
        i += 1;
    }
    let ghost before = out@;
    assert(text@.take(i as int) =~= text@);
    if let Some(tag) = tag_in_line(text, start, text.len()) {
        out.push(tag);
        assert(out@.map_values(|t: Vec<char>| t@) =~= before.map_values(|t: Vec<char>| t@).push(
            tag@,
        ));
    }
    out
}

/// `text` with every occurrence of `from` replaced by `to`, from left to right and
/// without overlaps.
pub open spec fn replaced(text: Seq<char>, from: Seq<char>, to: Seq<char>) -> Seq<char>
    decreases text.len(),
{
    if from.len() == 0 || text.len() < from.len() {
        text
    } else if stands_at(text, from, 0) {
        to + replaced(text.skip(from.len() as int), from, to)
    } else {
        seq![text[0]] + replaced(text.skip(1), from, to)
    }
}

fn append(out: &mut Vec<char>, more: &[char])
    ensures
        final(out)@ == old(out)@ + more@,
{
    let mut i: usize = 0;
    assert(out@ =~= old(out)@ + more@.take(0));
    while i < more.len()
        invariant
            i <= more@.len(),
            out@ == old(out)@ + more@.take(i as int),
        decreases more@.len() - i,
    {
        out.push(more[i]);
        i += 1;
        assert(out@ =~= old(out)@ + more@.take(i as int));
    }
    assert(more@.take(i as int) =~= more@);
}

/// Replace every occurrence of `from` by `to`.
pub fn replace_all(text: &[char], from: &[char], to: &[char]) -> (r: Vec<char>)
    requires
        from@.len() > 0,
    ensures
        r@ == replaced(text@, from@, to@),
{
    let mut out: Vec<char> = Vec::new();
    let mut i: usize = 0;
    assert(text@.skip(0) =~= text@);
    assert(out@ + replaced(text@.skip(0), from@, to@) =~= replaced(text@, from@, to@));
    while i < text.len() && from.len() <= text.len() - i
        invariant
            i <= text@.len(),
            from@.len() > 0,
            out@ + replaced(text@.skip(i as int), from@, to@) == replaced(text@, from@, to@),
        decreases text@.len() - i,
    {
        let ghost rest = text@.skip(i as int);
        let ghost was = out@;
        assert(forall|n: int| 0 <= n <= rest.len() ==> rest.subrange(0, n) =~= text@.subrange(i as int, i + n));
        if is_at(text, from, i) {
            assert(stands_at(rest, from@, 0));
            append(&mut out, to);
            i += from.len();
            assert(rest.skip(from@.len() as int) =~= text@.skip(i as int));
            assert(out@ + replaced(text@.skip(i as int), from@, to@) =~= was + replaced(
                rest,
                from@,
                to@,
            ));
        } else {
            assert(!stands_at(rest, from@, 0));
            out.push(text[i]);
            i += 1;
            assert(rest.skip(1) =~= text@.skip(i as int));
            assert(out@ + replaced(text@.skip(i as int), from@, to@) =~= was + replaced(
                rest,
                from@,
                to@,
            ));
        }
    }
    let tail = slice_of(text, i, text.len());
    assert(tail@ =~= text@.skip(i as int));
    append(&mut out, tail.as_slice());
    out
}

/// A header with the type stamped onto the definition of one tag.
pub open spec fn stamped(text: Seq<char>, tag: Seq<char>) -> Seq<char> {
    replaced(text, "typedef enum "@ + tag + " {"@, "typedef enum "@ + tag + " : int {"@)
}

/// A header with the type stamped onto the definition of each of some tags, in order.
pub open spec fn stamped_all(text: Seq<char>, tags: Seq<Seq<char>>) -> Seq<char>
    decreases tags.len(),
{
    if tags.len() == 0 {
        text
    } else {
        stamped(stamped_all(text, tags.drop_last()), tags.last())
    }
}

/// Stamp the type onto the definition of every tag.
pub fn stamp_types(text: &[char], tags: &[Vec<char>]) -> (r: Vec<char>)
    ensures
        r@ == stamped_all(text@, tags@.map_values(|t: Vec<char>| t@)),
{
    let ghost names = tags@.map_values(|t: Vec<char>| t@);
    let mut out: Vec<char> = slice_of(text, 0, text.len());
    assert(out@ =~= text@);
    assert(names.take(0) =~= Seq::<Seq<char>>::empty());
    let mut i: usize = 0;
    while i < tags.len()
        invariant
            i <= tags@.len(),
            names == tags@.map_values(|t: Vec<char>| t@),
            out@ == stamped_all(text@, names.take(i as int)),
        decreases tags@.len() - i,
    {
        let mut from = chars("typedef enum ");
        append(&mut from, tags[i].as_slice());
        append(&mut from, chars(" {").as_slice());
        let mut to = chars("typedef enum ");
        append(&mut to, tags[i].as_slice());
        append(&mut to, chars(" : int {").as_slice());
        proof {
            reveal_strlit("typedef enum ");
            assert(names.take(i + 1).drop_last() =~= names.take(i as int));
            assert(names.take(i + 1).last() == tags@[i as int]@);
        }
        out = replace_all(out.as_slice(), from.as_slice(), to.as_slice());
        i += 1;
    }
    assert(names.take(i as int) =~= names);
    out
}

/// A header that defines none of the announced enumerations is copied as it is.
pub proof fn law_other_headers_are_untouched(text: Seq<char>, from: Seq<char>, to: Seq<char>)
    requires
        from.len() > 0,
        forall|i: int| !#[trigger] stands_at(text, from, i),
    ensures
        replaced(text, from, to) == text,
    decreases text.len(),
{
    if text.len() >= from.len() {
        assert(!stands_at(text, from, 0));
        let rest = text.skip(1);
        assert forall|i: int| !#[trigger] stands_at(rest, from, i) by {
            if stands_at(rest, from, i) {
                assert(rest.subrange(i, i + from.len()) =~= text.subrange(i + 1, i + 1 + from.len()));
                assert(stands_at(text, from, i + 1));
            }
        }
        law_other_headers_are_untouched(rest, from, to);
        assert(seq![text[0]] + rest =~= text);
    }
}

/// Joining two texts with a line break puts their lines one after the other.
pub proof fn law_lines_of_joined_texts(a: Seq<char>, b: Seq<char>)
    ensures
        lines_of(a + seq!['\n'] + b) == lines_of(a) + lines_of(b),
        lines_of(b).len() > 0,
    decreases b.len(),
{
    let whole = a + seq!['\n'] + b;
    if b.len() == 0 {
        assert(whole.drop_last() =~= a);
        assert(lines_of(a) + lines_of(b) =~= lines_of(a).push(Seq::empty()));
    } else {
        let rest = b.drop_last();
        law_lines_of_joined_texts(a, rest);
        assert(whole.drop_last() =~= a + seq!['\n'] + rest);
        let (x, y) = (lines_of(a), lines_of(rest));
        if b.last() == '\n' {
            assert((x + y).push(Seq::empty()) =~= x + y.push(Seq::empty()));
        } else {
            let line = y.last().push(b.last());
            assert((x + y).drop_last().push(line) =~= x + y.drop_last().push(line));
        }
    }
}

/// A text without a line break is one line.
pub proof fn law_unbroken_text_is_one_line(text: Seq<char>)
    requires
        forall|i: int| 0 <= i < text.len() ==> #[trigger] text[i] != '\n',
    ensures
        lines_of(text) == seq![text],
    decreases text.len(),
{
    if text.len() > 0 {
        let rest = text.drop_last();
        assert forall|i: int| 0 <= i < rest.len() implies #[trigger] rest[i] != '\n' by {
            assert(rest[i] == text[i]);
        }
        law_unbroken_text_is_one_line(rest);
        assert(text.last() == text[text.len() - 1]);
        assert(rest.push(text.last()) =~= text);
        assert(seq![rest].drop_last().push(rest.push(text.last())) =~= seq![text]);
    } else {
        assert(text =~= Seq::<char>::empty());
    }
}

/// Blanks are dropped at both ends of a text and nowhere else.
pub proof fn law_trimming_drops_only_blanks(before: Seq<char>, s: Seq<char>, after: Seq<char>)
    requires
        s.len() > 0,
        !is_blank(s[0]),
        !is_blank(s.last()),
        forall|i: int| 0 <= i < before.len() ==> is_blank(#[trigger] before[i]),
        forall|i: int| 0 <= i < after.len() ==> is_blank(#[trigger] after[i]),
    ensures
        trimmed(before + s + after) == s,
    decreases before.len() + after.len(),
{
    let whole = before + s + after;
    if before.len() > 0 {
        assert(whole[0] == before[0]);
        let rest = before.skip(1);
        assert forall|i: int| 0 <= i < rest.len() implies is_blank(#[trigger] rest[i]) by {
            assert(rest[i] == before[i + 1]);
        }
        assert(whole.skip(1) =~= rest + s + after);
        law_trimming_drops_only_blanks(rest, s, after);
    } else {
        assert(whole[0] == s[0]);
        assert(trimmed_start(whole) == whole);
        if after.len() > 0 {
            assert(whole.last() == after.last());
            assert(after.last() == after[after.len() - 1]);
            let rest = after.drop_last();
            assert forall|i: int| 0 <= i < rest.len() implies is_blank(#[trigger] rest[i]) by {
                assert(rest[i] == after[i]);
            }
            assert(whole.drop_last() =~= before + s + rest);
            law_trimming_drops_only_blanks(before, s, rest);
            assert((before + s + rest)[0] == s[0]);
        } else {
            assert(whole =~= s);
        }
    }
}

/// A line that announces an enumeration gives its tag, whatever blanks surround it; and a
/// line that gives a tag has this form.
pub proof fn law_announcement_gives_the_tag(before: Seq<char>, tag: Seq<char>, after: Seq<char>, line: Seq<char>)
    requires
        tag.len() > 0,
        !is_blank(tag[0]),
        !is_blank(tag.last()),
        forall|i: int| 0 <= i < before.len() ==> is_blank(#[trigger] before[i]),
        forall|i: int| 0 <= i < after.len() ==> is_blank(#[trigger] after[i]),
    ensures
        announced(before + ("enum "@ + tag + " : int;"@) + after) == Some(tag),
        announced(line) matches Some(found) ==> exists|middle: Seq<char>|
            trimmed(line) == "enum "@ + middle + " : int;"@ && found == #[trigger] trimmed(middle),
{
    reveal_strlit("enum ");
    reveal_strlit(" : int;");
    let (open, close) = ("enum "@, " : int;"@);
    let s = open + tag + close;
    law_trimming_drops_only_blanks(before, s, after);
    assert(s.subrange(0, 5) =~= open);
    assert(s.skip(5) =~= tag + close);
    assert((tag + close).subrange(tag.len() as int, tag.len() as int + 7) =~= close);
    assert(s.subrange(5, s.len() - 7) =~= tag);
    let e = Seq::<char>::empty();
    law_trimming_drops_only_blanks(e, tag, e);
    assert(e + tag + e =~= tag);
    if let Some(found) = announced(line) {
        let t = trimmed(line);
        let middle = t.subrange(5, t.len() - 7);
        assert(t =~= open + middle + close) by {
            let rest = t.skip(5);
            assert(t.subrange(0, 5) == open);
            assert(rest.subrange(t.len() - 12, t.len() - 5) == close);
            assert forall|i: int| 0 <= i < t.len() implies t[i] == (open + middle + close)[i] by {
                if i < 5 {
                    assert(t.subrange(0, 5)[i] == t[i]);
                } else if i >= t.len() - 7 {
                    assert(rest.subrange(t.len() - 12, t.len() - 5)[i - (t.len() - 7)] == t[i]);
                }
            }
        }
        assert(found == trimmed(middle));
    }
}

/// The first occurrence is replaced, what is before it stays, and what follows is treated
/// in the same way. For a definition that means: the type stands between tag and brace.
pub proof fn law_first_occurrence_is_replaced(
    before: Seq<char>,
    from: Seq<char>,
    to: Seq<char>,
    after: Seq<char>,
)
    requires
        from.len() > 0,
        forall|i: int|
            0 <= i < before.len() ==> !#[trigger] stands_at(before + from + after, from, i),
    ensures
        replaced(before + from + after, from, to) == before + to + replaced(after, from, to),
    decreases before.len(),
{
    let text = before + from + after;
    if before.len() == 0 {
        assert(text.subrange(0, from.len() as int) =~= from);
        assert(text.skip(from.len() as int) =~= after);
        assert(before + to + replaced(after, from, to) =~= to + replaced(after, from, to));
    } else {
        let rest = before.skip(1);
        assert(!stands_at(text, from, 0));
        assert(text.skip(1) =~= rest + from + after);
        assert forall|i: int| 0 <= i < rest.len() implies !#[trigger] stands_at(
            rest + from + after,
            from,
            i,
        ) by {
            if stands_at(rest + from + after, from, i) {
                assert((rest + from + after).subrange(i, i + from.len()) =~= text.subrange(
                    i + 1,
                    i + 1 + from.len(),
                ));
                assert(stands_at(text, from, i + 1));
            }
        }
        law_first_occurrence_is_replaced(rest, from, to, after);
        assert(seq![text[0]] + (rest + to + replaced(after, from, to)) =~= before + to + replaced(
            after,
            from,
            to,
        ));
    }
}

/// Stamping a tag turns `typedef enum TAG {` into `typedef enum TAG : int {`.
pub proof fn law_definition_is_stamped(before: Seq<char>, tag: Seq<char>, after: Seq<char>)
    requires
        forall|i: int|
            0 <= i < before.len() ==> !#[trigger] stands_at(
                before + ("typedef enum "@ + tag + " {"@) + after,
                "typedef enum "@ + tag + " {"@,
                i,
            ),
    ensures
        stamped(before + ("typedef enum "@ + tag + " {"@) + after, tag) == before + (
        "typedef enum "@ + tag + " : int {"@) + stamped(after, tag),
{
    reveal_strlit("typedef enum ");
    law_first_occurrence_is_replaced(
        before,
        "typedef enum "@ + tag + " {"@,
        "typedef enum "@ + tag + " : int {"@,
        after,
    );
}

} // verus!
