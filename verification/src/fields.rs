//! Tab-delimited fields of a line.
//!
//! A line is cut at every tab character. A line without a tab is one field,
//! the empty line is one empty field, and a line of `n` tabs has `n + 1`
//! fields, some of which may be empty.

use vstd::prelude::*;
use vstd::std_specs::iter::IteratorSpec;
use vstd::string::*;

verus! {

/// The character that separates the fields of a line.
pub const TAB: char = '\t';

/// The fields of `s`, read from left to right: a tab opens a new, empty
/// field, and any other character extends the field that is open.
pub open spec fn fields(s: Seq<char>) -> Seq<Seq<char>>
    decreases s.len(),
{
    if s.len() == 0 {
        seq![Seq::<char>::empty()]
    } else {
        let before = fields(s.drop_last());
        if s.last() == TAB {
            before.push(Seq::<char>::empty())
        } else {
            before.drop_last().push(before.last().push(s.last()))
        }
    }
}

/// The number of fields of `s`.
pub open spec fn field_count(s: Seq<char>) -> nat {
    fields(s).len()
}

/// True if `text` is one of the fields of `line`.
pub open spec fn is_field_of(text: Seq<char>, line: Seq<char>) -> bool {
    exists|k: int| 0 <= k < field_count(line) && #[trigger] fields(line)[k] == text
}

/// The number of tab characters in `s`.
pub open spec fn tab_count(s: Seq<char>) -> nat
    decreases s.len(),
{
    if s.len() == 0 {
        0
    } else {
        tab_count(s.drop_last()) + if s.last() == TAB {
            1nat
        } else {
            0nat
        }
    }
}

/// True if no character of `s` is a tab.
pub open spec fn tab_free(s: Seq<char>) -> bool {
    forall|i: int| 0 <= i < s.len() ==> s[i] != TAB
}

/// The line whose fields are `fs`: the fields in order, with one tab
/// between neighbours.
pub open spec fn join(fs: Seq<Seq<char>>) -> Seq<char>
    decreases fs.len(),
{
    if fs.len() == 0 {
        Seq::<char>::empty()
    } else if fs.len() == 1 {
        fs[0]
    } else {
        join(fs.drop_last()) + seq![TAB] + fs.last()
    }
}

/// A line has one field more than it has tabs, so it always has a field.
pub proof fn lemma_field_count(s: Seq<char>)
    ensures
        field_count(s) == tab_count(s) + 1,
        field_count(s) >= 1,
    decreases s.len(),
{
    if s.len() > 0 {
        lemma_field_count(s.drop_last());
    }
}

/// No field holds a tab.
pub proof fn lemma_fields_tab_free(s: Seq<char>)
    ensures
        forall|k: int| 0 <= k < fields(s).len() ==> tab_free(#[trigger] fields(s)[k]),
    decreases s.len(),
{
    if s.len() > 0 {
        lemma_fields_tab_free(s.drop_last());
        lemma_field_count(s.drop_last());
    }
}

/// Joining the fields of a line gives the line back.
pub proof fn lemma_join_fields(s: Seq<char>)
    ensures
        join(fields(s)) == s,
    decreases s.len(),
{
    if s.len() == 0 {
        assert(join(fields(s)) =~= s);
    } else {
        let before = fields(s.drop_last());
        lemma_join_fields(s.drop_last());
        lemma_field_count(s.drop_last());
        if s.last() == TAB {
            let fs = before.push(Seq::<char>::empty());
            assert(fs.drop_last() =~= before);
            assert(join(fs) =~= s.drop_last() + seq![TAB]);
            assert(s.drop_last() + seq![TAB] =~= s);
        } else {
            let grown = before.last().push(s.last());
            let fs = before.drop_last().push(grown);
            assert(fs.drop_last() =~= before.drop_last());
            if before.len() == 1 {
                assert(join(before) == before[0]);
                assert(join(fs) == grown);
                assert(grown =~= s);
            } else {
                assert(join(before) == join(before.drop_last()) + seq![TAB] + before.last());
                assert(join(fs) == join(before.drop_last()) + seq![TAB] + grown);
                assert(join(fs) =~= join(before).push(s.last()));
                assert(s.drop_last().push(s.last()) =~= s);
            }
        }
    }
}

/// The fields of two lines put together with a tab between them are the
/// fields of the first followed by the fields of the second.
pub proof fn lemma_fields_of_tabbed(a: Seq<char>, b: Seq<char>)
    ensures
        fields(a + seq![TAB] + b) == fields(a) + fields(b),
    decreases b.len(),
{
    let whole = a + seq![TAB] + b;
    if b.len() == 0 {
        assert(whole.drop_last() =~= a);
        assert(fields(whole) =~= fields(a) + fields(b));
    } else {
        lemma_fields_of_tabbed(a, b.drop_last());
        lemma_field_count(b.drop_last());
        assert(whole.drop_last() =~= a + seq![TAB] + b.drop_last());
        assert(whole.last() == b.last());
        assert(fields(whole) =~= fields(a) + fields(b));
    }
}

/// The fields of a line are the only way to cut it: tab-free pieces that
/// join to the line are its fields.
pub proof fn lemma_fields_of_join(fs: Seq<Seq<char>>)
    requires
        fs.len() >= 1,
        forall|k: int| 0 <= k < fs.len() ==> tab_free(#[trigger] fs[k]),
    ensures
        fields(join(fs)) == fs,
    decreases fs.len(),
{
    if fs.len() == 1 {
        lemma_fields_of_tab_free(fs[0]);
        assert(fields(join(fs)) =~= fs);
    } else {
        lemma_fields_of_join(fs.drop_last());
        lemma_fields_of_tab_free(fs.last());
        lemma_fields_of_tabbed(join(fs.drop_last()), fs.last());
        assert(fs.drop_last() + seq![fs.last()] =~= fs);
    }
}

/// A line without a tab is its own single field.
pub proof fn lemma_fields_of_tab_free(s: Seq<char>)
    requires
        tab_free(s),
    ensures
        fields(s) == seq![s],
    decreases s.len(),
{
    if s.len() == 0 {
        assert(s =~= Seq::<char>::empty());
    } else {
        lemma_fields_of_tab_free(s.drop_last());
        assert(s.drop_last().push(s.last()) =~= s);
        assert(fields(s) =~= seq![s]);
    }
}

/// The field of `line` at the zero-based position `field_pos`, or `None`
/// where the line has no such field.
pub fn select_field<'a>(line: &'a str, field_pos: usize) -> (field: Option<&'a str>)
    ensures
        field is Some <==> field_pos < field_count(line@),
        field matches Some(f) ==> f@ == fields(line@)[field_pos as int],
{
    let len = line.unicode_len();
    let mut it = line.chars();
    // `seen` characters are read; the open field is number `current` and
    // begins at the character `start`.
    let mut seen: usize = 0;
    let mut current: usize = 0;
    let mut start: usize = 0;
    loop
        invariant
            len == line@.len(),
            start <= seen <= len,
            current <= field_pos,
            it.remaining() == line@.skip(seen as int),
            fields(line@.take(seen as int)).len() == current + 1,
            fields(line@.take(seen as int)).last() == line@.subrange(start as int, seen as int),
        decreases len - seen,
    {
        match it.next() {
            Some(c) => {
                proof {
                    assert(line@.take(seen + 1).drop_last() =~= line@.take(seen as int));
                    assert(line@.skip(seen as int).drop_first() =~= line@.skip(seen + 1));
                    assert(line@.subrange(start as int, seen as int).push(c) =~= line@.subrange(
                        start as int,
                        seen + 1,
                    ));
                    assert(line@.subrange(seen + 1, seen + 1) =~= Seq::<char>::empty());
                }
                if c == TAB {
                    if current == field_pos {
                        proof {
                            lemma_fields_of_tabbed(
                                line@.take(seen as int),
                                line@.skip(seen + 1),
                            );
                            assert(line@.take(seen as int) + seq![TAB] + line@.skip(seen + 1)
                                =~= line@);
                        }
                        return Some(line.substring_char(start, seen));
                    }
                    current = current + 1;
                    start = seen + 1;
                }
                seen = seen + 1;
            },
            None => {
                proof {
                    assert(line@.take(seen as int) =~= line@);
                }
                if current == field_pos {
                    return Some(line.substring_char(start, seen));
                }
                return None;
            },
        }
    }
}

} // verus!
