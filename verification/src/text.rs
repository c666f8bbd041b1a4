use vstd::prelude::*;
use vstd::string::*;

verus! {

/// `String::push` of std: the string afterwards is the string before with
/// the character appended, and nothing else changes.
pub assume_specification[ String::push ](s: &mut String, c: char)
    ensures
        final(s)@ == old(s)@.push(c),
;

/// The characters of a text, in order.
pub(crate) fn chars_of(s: &str) -> (r: Vec<char>)
    ensures
        r@ == s@,
{
    broadcast use vstd::string::axiom_spec_iter;

    let mut out: Vec<char> = Vec::new();
    for c in it: s.chars()
        invariant
            it.seq() == s@,
            out@ == it.seq().take(it.index() as int),
    {
        out.push(c);
    }
    out
}

/// The views of a sequence of texts.
pub open spec fn line_views(lines: Seq<String>) -> Seq<Seq<char>> {
    lines.map_values(|l: String| l@)
}

/// The lines one after the other, each followed by one newline.
pub open spec fn joined_lines(lines: Seq<Seq<char>>) -> Seq<char>
    decreases lines.len(),
{
    if lines.len() == 0 {
        Seq::empty()
    } else {
        joined_lines(lines.drop_last()) + lines.last() + seq!['\n']
    }
}

/// Makes one flat text of the lines: the characters of each line in order,
/// and one newline after each line.
pub fn into_chars(lines: Vec<String>) -> (r: Vec<char>)
    ensures
        r@ == joined_lines(line_views(lines@)),
{
    broadcast use vstd::string::axiom_spec_iter;

    let mut out: Vec<char> = Vec::new();
    let mut k: usize = 0;
    assert(line_views(lines@).take(0) =~= Seq::<Seq<char>>::empty());
    while k < lines.len()
        invariant
            0 <= k <= lines@.len(),
            out@ == joined_lines(line_views(lines@).take(k as int)),
        decreases lines@.len() - k,
    {
        let ghost before = out@;
        let line = lines[k].as_str();
        for c in it: line.chars()
            invariant
                it.seq() == line@,
                out@ == before + it.seq().take(it.index() as int),
        {
            out.push(c);
        }
        out.push('\n');
        k += 1;
        proof {
            let views = line_views(lines@);
            assert(views.take(k as int).drop_last() =~= views.take(k - 1));
            assert(views.take(k as int).last() == line@);
            assert(line@.take(line@.len() as int) =~= line@);
        }
    }
    assert(line_views(lines@).take(lines@.len() as int) =~= line_views(lines@));
    out
}

/// `prefix` followed by `text`.
pub(crate) fn prefixed(prefix: &str, text: &str) -> (r: String)
    ensures
        r@ == prefix@ + text@,
{
    let mut out = String::from_str(prefix);
    out.append(text);
    out
}

/// The text made of the one character `c`.
pub(crate) fn text_of_char(c: char) -> (r: String)
    ensures
        r@ == seq![c],
{
    let mut out = String::new();
    out.push(c);
    assert(out@ =~= seq![c]);
    out
}

/// The text made of `chars[from..to]`.
pub(crate) fn text_of_range(chars: &Vec<char>, from: usize, to: usize) -> (r: String)
    requires
        from <= to <= chars@.len(),
    ensures
        r@ == chars@.subrange(from as int, to as int),
{
    let mut out = String::new();
    let mut i: usize = from;
    while i < to
        invariant
            from <= i <= to <= chars@.len(),
            out@ == chars@.subrange(from as int, i as int),
        decreases to - i,
    {
        out.push(chars[i]);
        i += 1;
        assert(out@ =~= chars@.subrange(from as int, i as int));
    }
    out
}

} // verus!
