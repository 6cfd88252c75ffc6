//! Reading lists out of text.

use vstd::prelude::*;

verus! {

/// The texts of a list that may be absent.
pub open spec fn optional_texts(list: Option<Vec<String>>) -> Option<Seq<Seq<char>>> {
    match list {
        Some(items) => Some(texts(items@)),
        None => None,
    }
}

/// The texts of `strings`, in order.
pub open spec fn texts(strings: Seq<String>) -> Seq<Seq<char>> {
    strings.map_values(|s: String| s@)
}

/// Whether `c` is white space: a character with the Unicode property White_Space. These are
/// the tab, the line feed, the vertical tab, the form feed and the carriage return, the space,
/// the next line, the no-break space, the Ogham space mark, the spaces from the en quad to the
/// hair space, the line separator, the paragraph separator, the narrow no-break space, the
/// medium mathematical space and the ideographic space.
pub open spec fn is_white_space(c: char) -> bool {
    let code = c as u32;
    ||| 0x0009 <= code <= 0x000D
    ||| code == 0x0020
    ||| code == 0x0085
    ||| code == 0x00A0
    ||| code == 0x1680
    ||| 0x2000 <= code <= 0x200A
    ||| code == 0x2028
    ||| code == 0x2029
    ||| code == 0x202F
    ||| code == 0x205F
    ||| code == 0x3000
}

/// Whether `c` is white space.
pub fn is_whitespace(c: char) -> (r: bool)
    ensures
        r == is_white_space(c),
{
    let code: u32 = c as u32;
    (0x0009 <= code && code <= 0x000D) || code == 0x0020 || code == 0x0085 || code == 0x00A0
        || code == 0x1680 || (0x2000 <= code && code <= 0x200A) || code == 0x2028 || code
        == 0x2029 || code == 0x202F || code == 0x205F || code == 0x3000
}

/// `s` without the white space at its start.
pub open spec fn trim_start(s: Seq<char>) -> Seq<char>
    decreases s.len(),
{
    if s.len() > 0 && is_white_space(s.first()) {
        trim_start(s.drop_first())
    } else {
        s
    }
}

/// `s` without the white space at its end.
pub open spec fn trim_end(s: Seq<char>) -> Seq<char>
    decreases s.len(),
{
    if s.len() > 0 && is_white_space(s.last()) {
        trim_end(s.drop_last())
    } else {
        s
    }
}

/// `s` without the white space at its start and at its end.
pub open spec fn trim(s: Seq<char>) -> Seq<char> {
    trim_end(trim_start(s))
}

/// What is left after trimming neither begins nor ends with white space.
pub proof fn lemma_trim_ends(s: Seq<char>)
    ensures
        trim(s).len() > 0 ==> !is_white_space(trim(s).first()) && !is_white_space(trim(s).last()),
        trim(s).len() <= s.len(),
{
    lemma_trim_start(s);
    lemma_trim_end(trim_start(s));
}

/// What is left after trimming the start is the end of the text, and does not begin with
/// white space.
pub proof fn lemma_trim_start(s: Seq<char>)
    ensures
        trim_start(s).len() <= s.len(),
        trim_start(s) == s.subrange(s.len() - trim_start(s).len(), s.len() as int),
        trim_start(s).len() > 0 ==> !is_white_space(trim_start(s).first()),
    decreases s.len(),
{
    if s.len() > 0 && is_white_space(s.first()) {
        let rest = s.drop_first();
        lemma_trim_start(rest);
        let kept = trim_start(rest);
        assert(rest.subrange(rest.len() - kept.len(), rest.len() as int) =~= s.subrange(
            s.len() - kept.len(),
            s.len() as int,
        ));
    } else {
        assert(s.subrange(0, s.len() as int) =~= s);
    }
}

/// What is left after trimming the end is the start of the text, and does not end with white
/// space.
pub proof fn lemma_trim_end(s: Seq<char>)
    ensures
        trim_end(s).len() <= s.len(),
        trim_end(s) == s.subrange(0, trim_end(s).len() as int),
        trim_end(s).len() > 0 ==> !is_white_space(trim_end(s).last()),
    decreases s.len(),
{
    if s.len() > 0 && is_white_space(s.last()) {
        let rest = s.drop_last();
        lemma_trim_end(rest);
        let kept = trim_end(rest);
        assert(rest.subrange(0, kept.len() as int) =~= s.subrange(0, kept.len() as int));
    } else {
        assert(s.subrange(0, s.len() as int) =~= s);
    }
}

/// The pieces of `s` between its commas, in order: one more than it has commas.
pub open spec fn split_commas(s: Seq<char>) -> Seq<Seq<char>>
    decreases s.len(),
{
    if s.len() == 0 {
        seq![s]
    } else if s.last() == ',' {
        split_commas(s.drop_last()).push(Seq::empty())
    } else {
        let before = split_commas(s.drop_last());
        before.drop_last().push(before.last().push(s.last()))
    }
}

/// The pieces of `pieces` trimmed, without those that are empty after trimming.
pub open spec fn kept_items(pieces: Seq<Seq<char>>) -> Seq<Seq<char>>
    decreases pieces.len(),
{
    if pieces.len() == 0 {
        Seq::empty()
    } else {
        let before = kept_items(pieces.drop_last());
        let item = trim(pieces.last());
        if item.len() == 0 {
            before
        } else {
            before.push(item)
        }
    }
}

/// The items of a list written with commas: the pieces between the commas, each without the
/// white space around it, and without the pieces that are then empty.
pub open spec fn list_items(s: Seq<char>) -> Seq<Seq<char>> {
    kept_items(split_commas(s))
}

/// The characters of `s`.
fn chars_of(s: &str) -> (r: Vec<char>)
    ensures
        r@ == s@,
{
    let mut out: Vec<char> = Vec::new();
    for c in it: s.chars()
        invariant
            out@ == it.seq().take(it.index() as int),
            it.seq() == s@,
    {
        out.push(c);
        assert(it.seq().take(it.index() + 1) =~= it.seq().take(it.index() as int).push(c));
    }
    out
}

/// The bounds of what is left of the piece of `s` between `from` and `to` when the white
/// space at its two ends is taken away.
fn trim_bounds(s: &str, chars: &Vec<char>, from: usize, to: usize) -> (r: (usize, usize))
    requires
        chars@ == s@,
        from <= to <= s@.len(),
    ensures
        from <= r.0 <= r.1 <= to,
        s@.subrange(r.0 as int, r.1 as int) == trim(s@.subrange(from as int, to as int)),
{
    let ghost piece = s@.subrange(from as int, to as int);
    let mut a: usize = from;
    while a < to && is_whitespace(chars[a])
        invariant
            from <= a <= to <= s@.len(),
            chars@ == s@,
            trim_start(s@.subrange(a as int, to as int)) == trim_start(piece),
        decreases to - a,
    {
        assert(s@.subrange(a as int, to as int).drop_first() =~= s@.subrange(a + 1, to as int));
        a += 1;
    }
    assert(trim_start(piece) == s@.subrange(a as int, to as int));
    let mut b: usize = to;
    while b > a && is_whitespace(chars[b - 1])
        invariant
            a <= b <= to <= s@.len(),
            chars@ == s@,
            trim_end(s@.subrange(a as int, b as int)) == trim(piece),
        decreases b - a,
    {
        assert(s@.subrange(a as int, b as int).drop_last() =~= s@.subrange(a as int, b - 1));
        b -= 1;
    }
    (a, b)
}

/// `s` without the white space at its start and at its end.
pub fn trimmed(s: &str) -> (r: String)
    ensures
        r@ == trim(s@),
{
    let chars = chars_of(s);
    assert(s@.subrange(0, s@.len() as int) =~= s@);
    let (a, b) = trim_bounds(s, &chars, 0, chars.len());
    s.substring_char(a, b).to_owned()
}

/// Trims the piece of `s` between `from` and `to`, and keeps it as an item unless it is then
/// empty.
fn keep_item(s: &str, chars: &Vec<char>, from: usize, to: usize, items: &mut Vec<String>)
    requires
        chars@ == s@,
        from <= to <= s@.len(),
    ensures
        texts(final(items)@) == ({
            let item = trim(s@.subrange(from as int, to as int));
            if item.len() == 0 {
                texts(old(items)@)
            } else {
                texts(old(items)@).push(item)
            }
        }),
{
    let (a, b) = trim_bounds(s, chars, from, to);
    if a < b {
        let ghost before = items@;
        items.push(s.substring_char(a, b).to_owned());
        assert(texts(items@) =~= texts(before).push(s@.subrange(a as int, b as int)));
    }
}

/// Reads a list written with commas: gives the pieces between the commas, each without the
/// white space around it, and leaves out the pieces that are then empty.
pub fn split_list(s: &str) -> (items: Vec<String>)
    ensures
        texts(items@) == list_items(s@),
{
    let chars = chars_of(s);
    let n = chars.len();
    let mut items: Vec<String> = Vec::new();
    let ghost mut done: Seq<Seq<char>> = Seq::empty();
    let mut start: usize = 0;
    let mut i: usize = 0;
    assert(s@.take(0) =~= Seq::<char>::empty());
    assert(split_commas(s@.take(0)) =~= done.push(s@.subrange(0, 0)));
    assert(texts(items@) =~= kept_items(done));
    while i < n
        invariant
            start <= i <= n,
            chars@ == s@,
            n == s@.len(),
            split_commas(s@.take(i as int)) == done.push(s@.subrange(start as int, i as int)),
            texts(items@) == kept_items(done),
        decreases n - i,
    {
        let ghost piece = s@.subrange(start as int, i as int);
        let ghost next = s@.take(i + 1);
        assert(next.drop_last() =~= s@.take(i as int));
        assert(next.last() == s@[i as int]);
        if chars[i] == ',' {
            keep_item(s, &chars, start, i, &mut items);
            proof {
                let longer = done.push(piece);
                assert(longer.drop_last() =~= done);
                assert(longer.last() == piece);
                done = longer;
                assert(s@.subrange(i + 1, i + 1) =~= Seq::<char>::empty());
            }
            start = i + 1;
        } else {
            proof {
                let before = done.push(piece);
                assert(before.drop_last() =~= done);
                assert(before.last().push(s@[i as int]) =~= s@.subrange(start as int, i + 1));
            }
        }
        i += 1;
    }
    proof {
        assert(s@.take(n as int) =~= s@);
        let all = done.push(s@.subrange(start as int, n as int));
        assert(all.drop_last() =~= done);
    }
    keep_item(s, &chars, start, n, &mut items);
    items
}

/// Whether two lists hold the same texts in the same order.
pub fn same_texts(a: &Vec<String>, b: &Vec<String>) -> (r: bool)
    ensures
        r == (texts(a@) == texts(b@)),
{
    if a.len() != b.len() {
        assert(texts(a@).len() != texts(b@).len());
        return false;
    }
    let mut i: usize = 0;
    while i < a.len()
        invariant
            i <= a.len(),
            a.len() == b.len(),
            forall|j: int| 0 <= j < i ==> texts(a@)[j] == texts(b@)[j],
        decreases a.len() - i,
    {
        if a[i] != b[i] {
            assert(texts(a@)[i as int] != texts(b@)[i as int]);
            return false;
        }
        i += 1;
    }
    assert(texts(a@) =~= texts(b@));
    true
}

/// A copy of a list of texts.
pub fn copy_texts(list: &Vec<String>) -> (r: Vec<String>)
    ensures
        texts(r@) == texts(list@),
{
    let mut out: Vec<String> = Vec::new();
    let mut i: usize = 0;
    while i < list.len()
        invariant
            i <= list.len(),
            texts(out@) == texts(list@).take(i as int),
        decreases list.len() - i,
    {
        let ghost before = out@;
        out.push(list[i].clone());
        assert(texts(out@) =~= texts(before).push(list@[i as int]@));
        assert(texts(list@).take(i + 1) =~= texts(list@).take(i as int).push(list@[i as int]@));
        i += 1;
    }
    assert(texts(list@).take(list.len() as int) =~= texts(list@));
    out
}

} // verus!
