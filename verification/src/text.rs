//! Text primitives over sequences of characters.
//!
//! Strings are viewed as `Seq<char>`; every function here states its result
//! over that view.
use vstd::prelude::*;
use vstd::std_specs::iter::IteratorSpec;

verus! {

/// Appending one character to a `String` (`String::push`): the view grows by
/// exactly that character at its end.
pub assume_specification[ String::push ](s: &mut String, ch: char)
    ensures
        final(s)@ == old(s)@.push(ch),
;

/// The characters with the Unicode property White_Space.
pub open spec fn is_white_space(c: char) -> bool {
    let n = c as u32;
    ||| 0x09 <= n <= 0x0D
    ||| n == 0x20
    ||| n == 0x85
    ||| n == 0xA0
    ||| n == 0x1680
    ||| 0x2000 <= n <= 0x200A
    ||| n == 0x2028
    ||| n == 0x2029
    ||| n == 0x202F
    ||| n == 0x205F
    ||| n == 0x3000
}

/// Tells whether `c` is white space.
pub fn white_space(c: char) -> (r: bool)
    ensures
        r == is_white_space(c),
{
    let n: u32 = c as u32;
    (0x09 <= n && n <= 0x0D) || n == 0x20 || n == 0x85 || n == 0xA0 || n == 0x1680 || (0x2000 <= n
        && n <= 0x200A) || n == 0x2028 || n == 0x2029 || n == 0x202F || n == 0x205F || n == 0x3000
}

/// The characters of `s`, in order.
pub fn chars_of(s: &str) -> (r: Vec<char>)
    ensures
        r@ == s@,
{
    let mut out: Vec<char> = Vec::new();
    let mut it = s.chars();
    loop
        invariant_except_break
            it.obeys_prophetic_iter_laws(),
            out@ + it.remaining() =~= s@,
            it.decrease() is Some,
        ensures
            out@ == s@,
        decreases it.decrease()->0,
    {
        broadcast use vstd::string::next_postcondition;
        let ghost before = it.remaining();
        match it.next() {
            Some(c) => {
                out.push(c);
                assert(before =~= seq![c] + it.remaining());
            },
            None => {
                assert(before.len() == 0);
                assert(out@ =~= s@);
                break ;
            },
        }
    }
    out
}

/// The string made of the characters of `v`, in order.
pub fn string_of(v: &Vec<char>) -> (r: String)
    ensures
        r@ == v@,
{
    let mut out = String::new();
    let mut i: usize = 0;
    while i < v.len()
        invariant
            i <= v.len(),
            out@ == v@.subrange(0, i as int),
        decreases v.len() - i,
    {
        out.push(v[i]);
        i += 1;
    }
    out
}

/// The views of the texts of `s`.
pub open spec fn texts(s: Seq<String>) -> Seq<Seq<char>> {
    s.map_values(|t: String| t@)
}

/// The views of the rows of `v`.
pub open spec fn rows(v: Seq<Vec<char>>) -> Seq<Seq<char>> {
    v.map_values(|row: Vec<char>| row@)
}

/// The pieces of `s` between the occurrences of `sep`, from left to right.
/// An empty text has one empty piece; `n` separators give `n + 1` pieces.
pub open spec fn split_on(s: Seq<char>, sep: char) -> Seq<Seq<char>>
    decreases s.len(),
{
    if s.len() == 0 {
        seq![Seq::<char>::empty()]
    } else {
        let before = split_on(s.drop_last(), sep);
        if s.last() == sep {
            before.push(Seq::<char>::empty())
        } else {
            before.drop_last().push(before.last().push(s.last()))
        }
    }
}

/// A split always has at least one piece.
pub proof fn lemma_split_nonempty(s: Seq<char>, sep: char)
    ensures
        split_on(s, sep).len() >= 1,
    decreases s.len(),
{
    if s.len() > 0 {
        lemma_split_nonempty(s.drop_last(), sep);
    }
}

/// The texts of `parts` put together with `sep` between them.
pub open spec fn joined(parts: Seq<Seq<char>>, sep: char) -> Seq<char>
    decreases parts.len(),
{
    if parts.len() == 0 {
        Seq::<char>::empty()
    } else if parts.len() == 1 {
        parts[0]
    } else {
        joined(parts.drop_last(), sep).push(sep) + parts.last()
    }
}

/// What a split is: no piece holds the separator, and the pieces put
/// together with the separator between them give the text back.
pub proof fn lemma_split_joined(s: Seq<char>, sep: char)
    ensures
        joined(split_on(s, sep), sep) == s,
        forall|i: int|
            0 <= i < split_on(s, sep).len() ==> !(#[trigger] split_on(s, sep)[i]).contains(sep),
    decreases s.len(),
{
    let r = split_on(s, sep);
    if s.len() == 0 {
        assert(joined(r, sep) =~= s);
    } else {
        let b = split_on(s.drop_last(), sep);
        lemma_split_joined(s.drop_last(), sep);
        lemma_split_nonempty(s.drop_last(), sep);
        if s.last() == sep {
            assert(r.drop_last() =~= b);
            assert(joined(r, sep) =~= s.drop_last().push(sep));
            assert(s.drop_last().push(sep) =~= s);
            assert forall|i: int| 0 <= i < r.len() implies !(#[trigger] r[i]).contains(sep) by {
                if i < b.len() {
                    assert(r[i] == b[i]);
                }
            }
        } else {
            let grown = b.last().push(s.last());
            if b.len() == 1 {
                assert(joined(b, sep) == b[0]);
                assert(r =~= seq![grown]);
                assert(joined(r, sep) =~= s.drop_last().push(s.last()));
            } else {
                assert(r.drop_last() =~= b.drop_last());
                assert(joined(r, sep) =~= (joined(b.drop_last(), sep).push(sep) + b.last()).push(
                    s.last(),
                ));
            }
            assert(s.drop_last().push(s.last()) =~= s);
            assert forall|i: int| 0 <= i < r.len() implies !(#[trigger] r[i]).contains(sep) by {
                if i < b.len() - 1 {
                    assert(r[i] == b[i]);
                } else {
                    assert(!b[b.len() - 1].contains(sep));
                    if grown.contains(sep) {
                        let k = choose|k: int| 0 <= k < grown.len() && grown[k] == sep;
                        if k < b.last().len() {
                            assert(b.last()[k] == sep);
                        }
                    }
                }
            }
        }
    }
}

/// Splits `s` at every occurrence of `sep`.
pub fn split(s: &Vec<char>, sep: char) -> (r: Vec<Vec<char>>)
    ensures
        rows(r@) == split_on(s@, sep),
{
    let mut done: Vec<Vec<char>> = Vec::new();
    let mut piece: Vec<char> = Vec::new();
    let mut i: usize = 0;
    while i < s.len()
        invariant
            i <= s.len(),
            rows(done@).push(piece@) == split_on(s@.take(i as int), sep),
        decreases s.len() - i,
    {
        let c = s[i];
        proof {
            assert(s@.take(i + 1).drop_last() =~= s@.take(i as int));
            assert(s@.take(i + 1).last() == c);
            assert(rows(done@).push(piece@).drop_last() =~= rows(done@));
        }
        if c == sep {
            let ghost before = done@;
            done.push(piece);
            piece = Vec::new();
            proof {
                assert(rows(done@) =~= rows(before).push(done@.last()@));
            }
        } else {
            piece.push(c);
        }
        i += 1;
    }
    proof {
        assert(s@.take(i as int) =~= s@);
    }
    let ghost before = done@;
    done.push(piece);
    proof {
        assert(rows(done@) =~= rows(before).push(done@.last()@));
    }
    done
}

/// `s` without its leading white space.
pub open spec fn trim_start(s: Seq<char>) -> Seq<char>
    decreases s.len(),
{
    if s.len() > 0 && is_white_space(s.first()) {
        trim_start(s.drop_first())
    } else {
        s
    }
}

/// `s` without its trailing white space.
pub open spec fn trim_end(s: Seq<char>) -> Seq<char>
    decreases s.len(),
{
    if s.len() > 0 && is_white_space(s.last()) {
        trim_end(s.drop_last())
    } else {
        s
    }
}

/// `s` without its leading and trailing white space.
pub open spec fn trimmed(s: Seq<char>) -> Seq<char> {
    trim_end(trim_start(s))
}

/// What trimming leaves: a part of `s` that neither begins nor ends with
/// white space, with nothing but white space before and behind it.
pub proof fn lemma_trimmed(s: Seq<char>)
    ensures
        exists|from: int, to: int|
            0 <= from <= to <= s.len() && trimmed(s) == s.subrange(from, to) && (forall|k: int|
                0 <= k < from || to <= k < s.len() ==> is_white_space(#[trigger] s[k])),
        trimmed(s).len() > 0 ==> !is_white_space(trimmed(s).first()) && !is_white_space(
            trimmed(s).last(),
        ),
{
    lemma_trim_start(s);
    let from = choose|from: int|
        0 <= from <= s.len() && trim_start(s) == s.skip(from) && (forall|k: int|
            0 <= k < from ==> is_white_space(#[trigger] s[k]));
    let mid = s.skip(from);
    lemma_trim_end(mid);
    let cut = choose|cut: int|
        0 <= cut <= mid.len() && trim_end(mid) == mid.take(cut) && (forall|k: int|
            cut <= k < mid.len() ==> is_white_space(#[trigger] mid[k]));
    let to = from + cut;
    assert(mid.take(cut) =~= s.subrange(from, to));
    assert forall|k: int| 0 <= k < from || to <= k < s.len() implies is_white_space(
        #[trigger] s[k],
    ) by {
        if to <= k {
            assert(mid[k - from] == s[k]);
        }
    }
    if trimmed(s).len() > 0 {
        assert(trimmed(s).first() == mid.first());
    }
}

/// What trimming at the front leaves: the rest of `s` behind its leading
/// white space.
pub proof fn lemma_trim_start(s: Seq<char>)
    ensures
        exists|from: int|
            0 <= from <= s.len() && trim_start(s) == s.skip(from) && (forall|k: int|
                0 <= k < from ==> is_white_space(#[trigger] s[k])),
        trim_start(s).len() > 0 ==> !is_white_space(trim_start(s).first()),
    decreases s.len(),
{
    if s.len() > 0 && is_white_space(s.first()) {
        let rest = s.drop_first();
        lemma_trim_start(rest);
        let inner = choose|from: int|
            0 <= from <= rest.len() && trim_start(rest) == rest.skip(from) && (forall|k: int|
                0 <= k < from ==> is_white_space(#[trigger] rest[k]));
        let from = inner + 1;
        assert(rest.skip(inner) =~= s.skip(from));
        assert forall|k: int| 0 <= k < from implies is_white_space(#[trigger] s[k]) by {
            if k > 0 {
                assert(s[k] == rest[k - 1]);
            }
        }
    } else {
        assert(s.skip(0) =~= s);
    }
}

/// What trimming at the end leaves: the front of `s` before its trailing
/// white space.
pub proof fn lemma_trim_end(s: Seq<char>)
    ensures
        exists|to: int|
            0 <= to <= s.len() && trim_end(s) == s.take(to) && (forall|k: int|
                to <= k < s.len() ==> is_white_space(#[trigger] s[k])),
        trim_end(s).len() > 0 ==> !is_white_space(trim_end(s).last()),
        trim_end(s).len() > 0 ==> trim_end(s).first() == s.first(),
    decreases s.len(),
{
    if s.len() > 0 && is_white_space(s.last()) {
        let front = s.drop_last();
        lemma_trim_end(front);
        let to = choose|to: int|
            0 <= to <= front.len() && trim_end(front) == front.take(to) && (forall|k: int|
                to <= k < front.len() ==> is_white_space(#[trigger] front[k]));
        assert(front.take(to) =~= s.take(to));
        assert forall|k: int| to <= k < s.len() implies is_white_space(#[trigger] s[k]) by {
            if k < front.len() {
                assert(s[k] == front[k]);
            }
        }
    } else {
        assert(s.take(s.len() as int) =~= s);
    }
}

/// Removes leading and trailing white space from `s`.
pub fn trim(s: &Vec<char>) -> (r: Vec<char>)
    ensures
        r@ == trimmed(s@),
{
    let mut from: usize = 0;
    proof {
        assert(s@.skip(0) =~= s@);
    }
    while from < s.len() && white_space(s[from])
        invariant
            from <= s.len(),
            trim_start(s@) == trim_start(s@.skip(from as int)),
        decreases s.len() - from,
    {
        proof {
            assert(s@.skip(from as int).drop_first() =~= s@.skip(from + 1));
        }
        from += 1;
    }
    proof {
        assert(trim_start(s@) == s@.skip(from as int));
    }
    let mut to: usize = s.len();
    proof {
        assert(s@.subrange(from as int, to as int) =~= s@.skip(from as int));
    }
    while to > from && white_space(s[to - 1])
        invariant
            from <= to <= s.len(),
            trimmed(s@) == trim_end(s@.subrange(from as int, to as int)),
        decreases to,
    {
        proof {
            assert(s@.subrange(from as int, to as int).drop_last() =~= s@.subrange(
                from as int,
                to - 1,
            ));
        }
        to -= 1;
    }
    let mut out: Vec<char> = Vec::new();
    let mut i: usize = from;
    while i < to
        invariant
            from <= i <= to <= s.len(),
            out@ == s@.subrange(from as int, i as int),
        decreases to - i,
    {
        out.push(s[i]);
        proof {
            assert(s@.subrange(from as int, i + 1) =~= s@.subrange(from as int, i as int).push(
                s@[i as int],
            ));
        }
        i += 1;
    }
    out
}

/// What follows `prefix` in `s`, where `s` begins with it.
pub open spec fn after_prefix(s: Seq<char>, prefix: Seq<char>) -> Option<Seq<char>> {
    if prefix.is_prefix_of(s) {
        Some(s.skip(prefix.len() as int))
    } else {
        None
    }
}

/// Strips `prefix` from the front of `s`; `None` where `s` does not begin
/// with it.
pub fn strip_prefix(s: &Vec<char>, prefix: &Vec<char>) -> (r: Option<Vec<char>>)
    ensures
        match r {
            Some(rest) => after_prefix(s@, prefix@) == Some(rest@),
            None => after_prefix(s@, prefix@) is None,
        },
{
    if prefix.len() > s.len() {
        return None;
    }
    let mut i: usize = 0;
    while i < prefix.len()
        invariant
            i <= prefix.len() <= s.len(),
            s@.take(i as int) == prefix@.take(i as int),
        decreases prefix.len() - i,
    {
        if s[i] != prefix[i] {
            proof {
                assert(!prefix@.is_prefix_of(s@)) by {
                    if prefix@.is_prefix_of(s@) {
                        assert(s@.subrange(0, prefix@.len() as int)[i as int] == prefix@[i as int]);
                    }
                }
            }
            return None;
        }
        proof {
            assert(s@.take(i + 1) =~= s@.take(i as int).push(s@[i as int]));
            assert(prefix@.take(i + 1) =~= prefix@.take(i as int).push(prefix@[i as int]));
        }
        i += 1;
    }
    proof {
        assert(prefix@.take(i as int) =~= prefix@);
        assert(s@.take(i as int) =~= s@.subrange(0, prefix@.len() as int));
    }
    let mut out: Vec<char> = Vec::new();
    let mut j: usize = prefix.len();
    while j < s.len()
        invariant
            prefix.len() <= j <= s.len(),
            out@ == s@.subrange(prefix.len() as int, j as int),
        decreases s.len() - j,
    {
        out.push(s[j]);
        proof {
            assert(s@.subrange(prefix.len() as int, j + 1) =~= s@.subrange(
                prefix.len() as int,
                j as int,
            ).push(s@[j as int]));
        }
        j += 1;
    }
    proof {
        assert(s@.subrange(prefix.len() as int, s.len() as int) =~= s@.skip(prefix.len() as int));
    }
    Some(out)
}

/// `line` without one carriage return at its end, if it has one.
pub open spec fn without_return(line: Seq<char>) -> Seq<char> {
    if line.len() > 0 && line.last() == '\r' {
        line.drop_last()
    } else {
        line
    }
}

/// The lines of `s`. A line ends at a line feed, which is dropped together
/// with a carriage return just before it. What follows the last line feed is a
/// line of its own unless it is empty, and keeps a carriage return at its end.
pub open spec fn lines_of(s: Seq<char>) -> Seq<Seq<char>> {
    let pieces = split_on(s, '\n');
    let ended = pieces.drop_last().map_values(|piece: Seq<char>| without_return(piece));
    if pieces.last().len() == 0 {
        ended
    } else {
        ended.push(pieces.last())
    }
}

/// A copy of `s`.
pub fn copy_chars(s: &Vec<char>) -> (r: Vec<char>)
    ensures
        r@ == s@,
{
    let mut out: Vec<char> = Vec::new();
    let mut i: usize = 0;
    while i < s.len()
        invariant
            i <= s.len(),
            out@ == s@.take(i as int),
        decreases s.len() - i,
    {
        out.push(s[i]);
        proof {
            assert(s@.take(i + 1) =~= s@.take(i as int).push(s@[i as int]));
        }
        i += 1;
    }
    proof {
        assert(s@.take(s.len() as int) =~= s@);
    }
    out
}

/// A copy of `s` without one carriage return at its end.
pub fn strip_return(s: &Vec<char>) -> (r: Vec<char>)
    ensures
        r@ == without_return(s@),
{
    let mut out = copy_chars(s);
    if out.len() > 0 && out[out.len() - 1] == '\r' {
        out.pop();
    }
    out
}

/// Splits `s` into its lines.
pub fn lines(s: &Vec<char>) -> (r: Vec<Vec<char>>)
    ensures
        rows(r@) == lines_of(s@),
{
    let pieces = split(s, '\n');
    proof {
        lemma_split_nonempty(s@, '\n');
    }
    let ghost all = rows(pieces@);
    let n = pieces.len();
    let mut out: Vec<Vec<char>> = Vec::new();
    let mut i: usize = 0;
    while i + 1 < n
        invariant
            n == pieces.len(),
            n >= 1,
            i + 1 <= n,
            all == rows(pieces@),
            rows(out@) == all.take(i as int).map_values(|piece: Seq<char>| without_return(piece)),
        decreases n - i,
    {
        let line = strip_return(&pieces[i]);
        let ghost before = out@;
        out.push(line);
        proof {
            assert(rows(out@) =~= rows(before).push(line@));
            assert(all.take(i + 1) =~= all.take(i as int).push(all[i as int]));
            assert(all.take(i + 1).map_values(|piece: Seq<char>| without_return(piece))
                =~= all.take(i as int).map_values(|piece: Seq<char>| without_return(piece)).push(
                without_return(all[i as int]),
            ));
        }
        i += 1;
    }
    proof {
        assert(all.take(i as int) =~= all.drop_last());
    }
    if pieces[n - 1].len() > 0 {
        let last = copy_chars(&pieces[n - 1]);
        let ghost before = out@;
        out.push(last);
        proof {
            assert(rows(out@) =~= rows(before).push(last@));
        }
    }
    out
}

/// `needle` stands in `hay` at index `at`.
pub open spec fn occurs_at(hay: Seq<char>, needle: Seq<char>, at: int) -> bool {
    &&& 0 <= at
    &&& at + needle.len() <= hay.len()
    &&& hay.subrange(at, at + needle.len()) == needle
}

/// `needle` stands somewhere in `hay`.
pub open spec fn contains_text(hay: Seq<char>, needle: Seq<char>) -> bool {
    exists|at: int| occurs_at(hay, needle, at)
}

/// Tells whether `needle` stands in `hay` at index `at`.
pub fn found_at(hay: &Vec<char>, needle: &Vec<char>, at: usize) -> (r: bool)
    ensures
        r == occurs_at(hay@, needle@, at as int),
{
    if at > hay.len() || needle.len() > hay.len() - at {
        return false;
    }
    let mut k: usize = 0;
    while k < needle.len()
        invariant
            at + needle.len() <= hay.len(),
            k <= needle.len(),
            hay@.subrange(at as int, at + k) == needle@.take(k as int),
        decreases needle.len() - k,
    {
        if hay[at + k] != needle[k] {
            proof {
                if occurs_at(hay@, needle@, at as int) {
                    assert(hay@.subrange(at as int, at + needle@.len())[k as int]
                        == needle@[k as int]);
                }
            }
            return false;
        }
        proof {
            assert(hay@.subrange(at as int, at + k + 1) =~= hay@.subrange(at as int, at + k).push(
                hay@[at + k],
            ));
            assert(needle@.take(k + 1) =~= needle@.take(k as int).push(needle@[k as int]));
        }
        k += 1;
    }
    proof {
        assert(needle@.take(k as int) =~= needle@);
    }
    true
}

/// `s` ends with `suffix`.
pub open spec fn ends_with(s: Seq<char>, suffix: Seq<char>) -> bool {
    suffix.len() <= s.len() && occurs_at(s, suffix, s.len() - suffix.len())
}

/// Tells whether `s` ends with `suffix`.
pub fn has_suffix(s: &Vec<char>, suffix: &Vec<char>) -> (r: bool)
    ensures
        r == ends_with(s@, suffix@),
{
    suffix.len() <= s.len() && found_at(s, suffix, s.len() - suffix.len())
}

/// Tells whether `needle` stands somewhere in `hay`.
pub fn contains(hay: &Vec<char>, needle: &Vec<char>) -> (r: bool)
    ensures
        r == contains_text(hay@, needle@),
{
    if needle.len() > hay.len() {
        return false;
    }
    let last: usize = hay.len() - needle.len();
    let mut at: usize = 0;
    loop
        invariant
            last == hay.len() - needle.len(),
            at <= last,
            forall|k: int| 0 <= k < at ==> !occurs_at(hay@, needle@, k),
        decreases last - at,
    {
        if found_at(hay, needle, at) {
            return true;
        }
        if at == last {
            return false;
        }
        at += 1;
    }
}

/// `s` with every occurrence of `pattern` replaced by `with`, the occurrences
/// taken from left to right and never overlapping. An empty pattern occurs
/// before every character and at the end.
pub open spec fn replaced(s: Seq<char>, pattern: Seq<char>, with: Seq<char>) -> Seq<char>
    decreases s.len(),
{
    if pattern.len() == 0 {
        if s.len() == 0 {
            with
        } else {
            with + seq![s.first()] + replaced(s.drop_first(), pattern, with)
        }
    } else if s.len() == 0 {
        s
    } else if occurs_at(s, pattern, 0) {
        with + replaced(s.skip(pattern.len() as int), pattern, with)
    } else {
        seq![s.first()] + replaced(s.drop_first(), pattern, with)
    }
}

/// Appends the characters of `tail` to `out`.
pub fn extend(out: &mut Vec<char>, tail: &Vec<char>)
    ensures
        final(out)@ == old(out)@ + tail@,
{
    let mut i: usize = 0;
    while i < tail.len()
        invariant
            i <= tail.len(),
            out@ == old(out)@ + tail@.take(i as int),
        decreases tail.len() - i,
    {
        out.push(tail[i]);
        proof {
            assert(tail@.take(i + 1) =~= tail@.take(i as int).push(tail@[i as int]));
            assert(old(out)@ + tail@.take(i + 1) =~= (old(out)@ + tail@.take(i as int)).push(
                tail@[i as int],
            ));
        }
        i += 1;
    }
    proof {
        assert(tail@.take(tail.len() as int) =~= tail@);
    }
}

/// Replaces every occurrence of `pattern` in `s` by `with`.
pub fn replace(s: &Vec<char>, pattern: &Vec<char>, with: &Vec<char>) -> (r: Vec<char>)
    ensures
        r@ == replaced(s@, pattern@, with@),
{
    let mut out: Vec<char> = Vec::new();
    let mut i: usize = 0;
    proof {
        assert(s@.skip(0) =~= s@);
    }
    while i < s.len()
        invariant
            i <= s.len(),
            out@ + replaced(s@.skip(i as int), pattern@, with@) == replaced(s@, pattern@, with@),
        decreases s.len() - i,
    {
        let ghost rest = s@.skip(i as int);
        let ghost before = out@;
        if pattern.len() == 0 {
            extend(&mut out, with);
            out.push(s[i]);
            proof {
                assert(rest.drop_first() =~= s@.skip(i + 1));
                assert(out@ + replaced(s@.skip(i + 1), pattern@, with@) =~= before + replaced(
                    rest,
                    pattern@,
                    with@,
                ));
            }
            i += 1;
        } else if found_at(s, pattern, i) {
            extend(&mut out, with);
            proof {
                assert(rest.subrange(0, pattern@.len() as int) =~= s@.subrange(
                    i as int,
                    i + pattern@.len(),
                ));
                assert(occurs_at(rest, pattern@, 0));
                assert(rest.skip(pattern@.len() as int) =~= s@.skip(i + pattern@.len()));
                assert(out@ + replaced(s@.skip(i + pattern@.len()), pattern@, with@) =~= before
                    + replaced(rest, pattern@, with@));
            }
            i += pattern.len();
        } else {
            out.push(s[i]);
            proof {
                if occurs_at(rest, pattern@, 0) {
                    assert(rest.subrange(0, pattern@.len() as int) =~= s@.subrange(
                        i as int,
                        i + pattern@.len(),
                    ));
                }
                assert(rest.drop_first() =~= s@.skip(i + 1));
                assert(out@ + replaced(s@.skip(i + 1), pattern@, with@) =~= before + replaced(
                    rest,
                    pattern@,
                    with@,
                ));
            }
            i += 1;
        }
    }
    proof {
        assert(s@.skip(i as int).len() == 0);
    }
    if pattern.len() == 0 {
        extend(&mut out, with);
    } else {
        proof {
            assert(out@ + Seq::<char>::empty() =~= out@);
        }
    }
    out
}

/// The lower-case form of an ASCII capital; any other character unchanged.
pub open spec fn ascii_lower(c: char) -> char {
    if 'A' <= c <= 'Z' {
        ((c as u8) + 32) as char
    } else {
        c
    }
}

/// `s` with its ASCII capitals in lower case.
pub open spec fn lowered(s: Seq<char>) -> Seq<char> {
    s.map_values(|c: char| ascii_lower(c))
}

/// Puts the ASCII capitals of `s` in lower case.
pub fn to_ascii_lowercase(s: &Vec<char>) -> (r: Vec<char>)
    ensures
        r@ == lowered(s@),
{
    let mut out: Vec<char> = Vec::new();
    let mut i: usize = 0;
    while i < s.len()
        invariant
            i <= s.len(),
            out@ == lowered(s@.take(i as int)),
        decreases s.len() - i,
    {
        let c = s[i];
        let low = if 'A' <= c && c <= 'Z' {
            ((c as u8) + 32) as char
        } else {
            c
        };
        out.push(low);
        proof {
            assert(s@.take(i + 1) =~= s@.take(i as int).push(c));
            assert(lowered(s@.take(i + 1)) =~= lowered(s@.take(i as int)).push(ascii_lower(c)));
        }
        i += 1;
    }
    proof {
        assert(s@.take(s.len() as int) =~= s@);
    }
    out
}

} // verus!
