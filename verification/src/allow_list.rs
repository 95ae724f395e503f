//! The allow list file: identifiers, one per line.
//!
//! The file's text is taken without the white space around it and cut at
//! every newline. What an identifier has to look like is for the reader of
//! the lines to say.

use vstd::prelude::*;

verus! {

/// `String::push` appends one character.
pub assume_specification[ String::push ](text: &mut String, c: char)
    ensures
        final(text)@ == old(text)@.push(c),
;

/// Whether `c` has the Unicode property White_Space.
pub open spec fn is_white_space(c: char) -> bool {
    let n = c as u32;
    ||| 0x09 <= n <= 0x0d
    ||| n == 0x20
    ||| n == 0x85
    ||| n == 0xa0
    ||| n == 0x1680
    ||| 0x2000 <= n <= 0x200a
    ||| n == 0x2028
    ||| n == 0x2029
    ||| n == 0x202f
    ||| n == 0x205f
    ||| n == 0x3000
}

/// `text` without the white space at its start and at its end.
pub open spec fn trimmed(text: Seq<char>) -> Seq<char>
    decreases text.len(),
{
    if text.len() > 0 && is_white_space(text.first()) {
        trimmed(text.drop_first())
    } else if text.len() > 0 && is_white_space(text.last()) {
        trimmed(text.drop_last())
    } else {
        text
    }
}

/// The pieces of `text` between its newlines: one more than it has
/// newlines, so at least one, and empty pieces count.
pub open spec fn split_lines(text: Seq<char>) -> Seq<Seq<char>>
    decreases text.len(),
{
    if text.len() == 0 {
        seq![Seq::empty()]
    } else {
        let before = split_lines(text.drop_last());
        if text.last() == '\n' {
            before.push(Seq::empty())
        } else {
            before.update(before.len() - 1, before.last().push(text.last()))
        }
    }
}

/// The identifiers that a file of `content` lists, in file order.
pub open spec fn listed_ids(content: Seq<char>) -> Seq<Seq<char>> {
    split_lines(trimmed(content))
}

/// Whether `c` has the Unicode property White_Space.
pub fn white_space(c: char) -> (yes: bool)
    ensures
        yes == is_white_space(c),
{
    let n: u32 = c as u32;
    (0x09 <= n && n <= 0x0d) || n == 0x20 || n == 0x85 || n == 0xa0 || n == 0x1680 || (0x2000 <= n
        && n <= 0x200a) || n == 0x2028 || n == 0x2029 || n == 0x202f || n == 0x205f || n == 0x3000
}

/// Trimming leaves the stretch between the leading and the trailing white
/// space.
proof fn lemma_trimmed_is_subrange(text: Seq<char>, start: int, end: int)
    requires
        0 <= start <= end <= text.len(),
        forall|k: int| 0 <= k < start ==> is_white_space(text[k]),
        forall|k: int| end <= k < text.len() ==> is_white_space(text[k]),
        start < end ==> !is_white_space(text[start]) && !is_white_space(text[end - 1]),
    ensures
        trimmed(text) == text.subrange(start, end),
    decreases text.len(),
{
    if text.len() == 0 {
        assert(text.subrange(start, end) =~= text);
    } else if is_white_space(text.first()) {
        let rest = text.drop_first();
        if start > 0 {
            lemma_trimmed_is_subrange(rest, start - 1, end - 1);
            assert(rest.subrange(start - 1, end - 1) =~= text.subrange(start, end));
        } else {
            lemma_trimmed_is_subrange(rest, 0, 0);
            assert(rest.subrange(0, 0) =~= text.subrange(start, end));
        }
    } else if is_white_space(text.last()) {
        let rest = text.drop_last();
        lemma_trimmed_is_subrange(rest, start, end);
        assert(rest.subrange(start, end) =~= text.subrange(start, end));
    } else {
        assert(text.subrange(start, end) =~= text);
    }
}

/// Lists the identifiers of an allow list file: its text without the white
/// space around it, cut at every newline. There is always at least one
/// piece, and a piece may be empty.
pub fn pool_related_object_ids(content: &str) -> (ids: Vec<String>)
    ensures
        ids.deep_view() == listed_ids(content@),
{
    let mut chars: Vec<char> = Vec::new();
    for c in it: content.chars()
        invariant
            chars@ == it.seq().take(it.index()),
    {
        chars.push(c);
    }
    assert(chars@ == content@);
    let mut start: usize = 0;
    while start < chars.len() && white_space(chars[start])
        invariant
            start <= chars.len(),
            forall|k: int| 0 <= k < start ==> is_white_space(chars@[k]),
        decreases chars.len() - start,
    {
        start += 1;
    }
    let mut end: usize = chars.len();
    while end > start && white_space(chars[end - 1])
        invariant
            start <= end <= chars.len(),
            forall|k: int| end <= k < chars.len() ==> is_white_space(chars@[k]),
        decreases end,
    {
        end -= 1;
    }
    let ghost text = chars@.subrange(start as int, end as int);
    proof {
        lemma_trimmed_is_subrange(chars@, start as int, end as int);
    }
    let mut ids: Vec<String> = Vec::new();
    let mut current = String::new();
    let mut i: usize = start;
    proof {
        assert(text.take(0) =~= Seq::<char>::empty());
        assert(ids.deep_view().push(current@) =~= seq![Seq::<char>::empty()]);
    }
    while i < end
        invariant
            start <= i <= end <= chars.len(),
            text == chars@.subrange(start as int, end as int),
            ids.deep_view().push(current@) == split_lines(text.take(i - start)),
        decreases end - i,
    {
        let c = chars[i];
        proof {
            let seen = text.take(i - start + 1);
            assert(seen.drop_last() =~= text.take(i - start));
            assert(seen.last() == c);
        }
        let ghost before = ids.deep_view().push(current@);
        if c == '\n' {
            let ghost listed = ids.deep_view();
            ids.push(current);
            current = String::new();
            assert(ids.deep_view().push(current@) =~= before.push(Seq::empty()));
        } else {
            let ghost line = current@;
            current.push(c);
            assert(ids.deep_view().push(current@) =~= before.update(
                before.len() - 1,
                line.push(c),
            ));
        }
        i += 1;
    }
    proof {
        assert(text.take(end - start) =~= text);
    }
    let ghost listed = ids.deep_view().push(current@);
    ids.push(current);
    assert(ids.deep_view() =~= listed);
    ids
}

} // verus!
