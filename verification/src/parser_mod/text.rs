use vstd::prelude::*;
use vstd::std_specs::iter::IteratorSpec;
use vstd::utf8::{decode_utf8, valid_utf8};

verus! {

broadcast use vstd::string::group_string_axioms;

/// The characters of `s`, in order.
pub fn chars_of(s: &str) -> (res: Vec<char>)
    ensures
        res@ == s@,
{
    let mut it = s.chars();
    let mut res: Vec<char> = Vec::new();
    loop
        invariant
            res@ + it.remaining() == s@,
            it.decrease() is Some,
        ensures
            res@ == s@,
        decreases it.decrease()->0,
    {
        match it.next() {
            Some(c) => {
                res.push(c);
            },
            None => {
                break;
            },
        }
    }
    res
}

/// `String::push`: appends the character `c` at the end of `s`.
#[verifier::external_body]
pub fn push_char(s: &mut String, c: char)
    ensures
        final(s)@ == old(s)@.push(c),
{
    s.push(c);
}

/// `String::from_utf8`: the text that `bytes` encode in UTF-8, or `None`
/// when they are not valid UTF-8 (its documented error case).
#[verifier::external_body]
pub fn string_from_utf8(bytes: Vec<u8>) -> (res: Option<String>)
    ensures
        res is Some <==> valid_utf8(bytes@),
        res matches Some(s) ==> s@ == decode_utf8(bytes@),
{
    String::from_utf8(bytes).ok()
}

/// A `String` that holds the characters `cs`.
pub fn string_from_chars(cs: &[char]) -> (res: String)
    ensures
        res@ == cs@,
{
    let mut res = String::new();
    let mut i: usize = 0;
    while i < cs.len()
        invariant
            i <= cs@.len(),
            res@ == cs@.take(i as int),
        decreases cs.len() - i,
    {
        push_char(&mut res, cs[i]);
        assert(cs@.take(i + 1) =~= cs@.take(i as int).push(cs@[i as int]));
        i = i + 1;
    }
    assert(cs@.take(cs@.len() as int) =~= cs@);
    res
}

/// Whether `c` has the Unicode White_Space property (what `char::is_whitespace`
/// tests).
pub open spec fn is_white_space(c: char) -> bool {
    let u = c as u32;
    ||| 0x9 <= u <= 0xd
    ||| u == 0x20
    ||| u == 0x85
    ||| u == 0xa0
    ||| u == 0x1680
    ||| 0x2000 <= u <= 0x200a
    ||| u == 0x2028
    ||| u == 0x2029
    ||| u == 0x202f
    ||| u == 0x205f
    ||| u == 0x3000
}

/// Tests whether `c` has the Unicode White_Space property.
pub fn is_whitespace(c: char) -> (res: bool)
    ensures
        res == is_white_space(c),
{
    let u = c as u32;
    (0x9 <= u && u <= 0xd) || u == 0x20 || u == 0x85 || u == 0xa0 || u == 0x1680 || (0x2000 <= u && u
        <= 0x200a) || u == 0x2028 || u == 0x2029 || u == 0x202f || u == 0x205f || u == 0x3000
}

/// `s` without its leading white space.
pub open spec fn trim_start(s: Seq<char>) -> Seq<char>
    decreases s.len(),
{
    if s.len() > 0 && is_white_space(s[0]) {
        trim_start(s.drop_first())
    } else {
        s
    }
}

/// `s` without its trailing white space.
pub open spec fn trim_end(s: Seq<char>) -> Seq<char>
    decreases s.len(),
{
    if s.len() > 0 && is_white_space(s.last()) {
        trim_end(s.drop_last())
    } else {
        s
    }
}

/// `s` without leading and trailing white space (what `str::trim` gives).
pub open spec fn trim(s: Seq<char>) -> Seq<char> {
    trim_end(trim_start(s))
}

/// The pieces of `s` between occurrences of `sep`, in order, empty pieces
/// included: one more piece than `s` has separators (what `str::split`
/// yields for a character).
pub open spec fn split_on(s: Seq<char>, sep: char) -> Seq<Seq<char>>
    decreases s.len(),
{
    if s.len() == 0 {
        seq![Seq::empty()]
    } else {
        let parts = split_on(s.drop_last(), sep);
        if s.last() == sep {
            parts.push(Seq::empty())
        } else {
            parts.update(parts.len() - 1, parts.last().push(s.last()))
        }
    }
}

/// `split_on` always yields at least one piece.
pub proof fn lemma_split_on_nonempty(s: Seq<char>, sep: char)
    ensures
        split_on(s, sep).len() >= 1,
    decreases s.len(),
{
    if s.len() > 0 {
        lemma_split_on_nonempty(s.drop_last(), sep);
    }
}

/// A text without the separator splits into itself alone.
pub proof fn lemma_split_on_without_sep(t: Seq<char>, sep: char)
    requires
        !t.contains(sep),
    ensures
        split_on(t, sep) == seq![t],
    decreases t.len(),
{
    if t.len() == 0 {
        assert(t =~= Seq::<char>::empty());
        assert(split_on(t, sep) =~= seq![t]);
    } else {
        assert(!t.drop_last().contains(sep)) by {
            if t.drop_last().contains(sep) {
                let j = choose|j: int| 0 <= j < t.drop_last().len() && t.drop_last()[j] == sep;
                assert(t[j] == sep);
            }
        }
        lemma_split_on_without_sep(t.drop_last(), sep);
        assert(t.last() != sep) by {
            assert(t[t.len() - 1] == t.last());
        }
        assert(t.drop_last().push(t.last()) =~= t);
        assert(split_on(t, sep) =~= seq![t]);
    }
}

/// Joining `a` and a text `t` without the separator by one separator adds
/// `t` as one more piece: `split(a + sep + t) == split(a) + [t]`.
pub proof fn lemma_split_on_join(a: Seq<char>, t: Seq<char>, sep: char)
    requires
        !t.contains(sep),
    ensures
        split_on(a.push(sep) + t, sep) == split_on(a, sep).push(t),
    decreases t.len(),
{
    if t.len() == 0 {
        assert(t =~= Seq::<char>::empty());
        assert(a.push(sep) + t =~= a.push(sep));
        assert(a.push(sep).drop_last() =~= a);
        assert(a.push(sep).last() == sep);
        assert(split_on(a.push(sep), sep) =~= split_on(a, sep).push(Seq::empty()));
    } else {
        assert(!t.drop_last().contains(sep)) by {
            if t.drop_last().contains(sep) {
                let j = choose|j: int| 0 <= j < t.drop_last().len() && t.drop_last()[j] == sep;
                assert(t[j] == sep);
            }
        }
        lemma_split_on_join(a, t.drop_last(), sep);
        let s = a.push(sep) + t;
        assert(s.drop_last() =~= a.push(sep) + t.drop_last());
        assert(s.last() == t.last());
        assert(t.last() != sep) by {
            assert(t[t.len() - 1] == t.last());
        }
        assert(t.drop_last().push(t.last()) =~= t);
        assert(split_on(s, sep) =~= split_on(a, sep).push(t));
    }
}

proof fn lemma_trim_start_skip(s: Seq<char>, i: int)
    requires
        0 <= i <= s.len(),
        forall|j: int| 0 <= j < i ==> is_white_space(s[j]),
    ensures
        trim_start(s) == trim_start(s.skip(i)),
    decreases i,
{
    if i > 0 {
        assert(s.drop_first().skip(i - 1) =~= s.skip(i));
        lemma_trim_start_skip(s.drop_first(), i - 1);
    } else {
        assert(s.skip(0) =~= s);
    }
}

proof fn lemma_trim_end_take(s: Seq<char>, j: int)
    requires
        0 <= j <= s.len(),
        forall|k: int| j <= k < s.len() ==> is_white_space(s[k]),
    ensures
        trim_end(s) == trim_end(s.take(j)),
    decreases s.len() - j,
{
    if j < s.len() {
        assert(s.drop_last().take(j) =~= s.take(j));
        lemma_trim_end_take(s.drop_last(), j);
    } else {
        assert(s.take(j) =~= s);
    }
}

/// The characters of `cs` without leading and trailing white space.
pub fn trim_chars(cs: &[char]) -> (res: Vec<char>)
    ensures
        res@ == trim(cs@),
{
    let mut i: usize = 0;
    while i < cs.len() && is_whitespace(cs[i])
        invariant
            i <= cs@.len(),
            forall|k: int| 0 <= k < i ==> is_white_space(cs@[k]),
        decreases cs.len() - i,
    {
        i = i + 1;
    }
    proof {
        lemma_trim_start_skip(cs@, i as int);
    }
    let mut j: usize = cs.len();
    while j > i && is_whitespace(cs[j - 1])
        invariant
            i <= j <= cs@.len(),
            forall|k: int| j <= k < cs@.len() ==> is_white_space(cs@[k]),
        decreases j,
    {
        j = j - 1;
    }
    let ghost rest = cs@.skip(i as int);
    proof {
        assert(trim_start(rest) == rest);
        lemma_trim_end_take(rest, j - i);
        assert(rest.take(j - i) =~= cs@.subrange(i as int, j as int));
        let t = cs@.subrange(i as int, j as int);
        if t.len() > 0 {
            assert(t.last() == cs@[j - 1]);
        }
    }
    vstd::slice::slice_to_vec(vstd::slice::slice_subrange(cs, i, j))
}

/// The views of a sequence of strings.
pub open spec fn strings_view(v: Seq<String>) -> Seq<Seq<char>> {
    v.map_values(|s: String| s@)
}

/// The views of a sequence of character vectors.
pub open spec fn char_vecs_view(v: Seq<Vec<char>>) -> Seq<Seq<char>> {
    v.map_values(|p: Vec<char>| p@)
}

/// Splits `s` at every `sep` and trims white space off each piece, as
/// `s.split(sep).map(|p| p.trim())` does.
pub fn split_and_trim(s: &str, sep: char) -> (res: Vec<String>)
    ensures
        strings_view(res@) == split_on(s@, sep).map_values(|p: Seq<char>| trim(p)),
{
    let cs = chars_of(s);
    let mut pieces: Vec<Vec<char>> = Vec::new();
    let mut current: Vec<char> = Vec::new();
    let mut i: usize = 0;
    assert(cs@.take(0) =~= Seq::<char>::empty());
    while i < cs.len()
        invariant
            i <= cs@.len(),
            cs@ == s@,
            char_vecs_view(pieces@).push(current@) == split_on(cs@.take(i as int), sep),
        decreases cs.len() - i,
    {
        let c = cs[i];
        let ghost before = cs@.take(i as int);
        let ghost old_pieces = pieces@;
        let ghost old_current = current@;
        proof {
            assert(cs@.take(i + 1).drop_last() =~= before);
            lemma_split_on_nonempty(before, sep);
        }
        if c == sep {
            pieces.push(current);
            current = Vec::new();
            assert(char_vecs_view(pieces@) =~= char_vecs_view(old_pieces).push(old_current));
        } else {
            current.push(c);
            assert(char_vecs_view(pieces@).push(current@) =~= char_vecs_view(old_pieces).push(old_current).update(
                old_pieces.len() as int,
                old_current.push(c),
            ));
        }
        i = i + 1;
    }
    assert(cs@.take(cs@.len() as int) =~= cs@);
    pieces.push(current);
    let ghost parts = split_on(s@, sep);
    assert(char_vecs_view(pieces@) =~= parts);
    let mut res: Vec<String> = Vec::new();
    let mut k: usize = 0;
    while k < pieces.len()
        invariant
            k <= pieces@.len(),
            char_vecs_view(pieces@) == parts,
            strings_view(res@) =~= parts.take(k as int).map_values(|p: Seq<char>| trim(p)),
        decreases pieces.len() - k,
    {
        let trimmed = trim_chars(pieces[k].as_slice());
        let piece = string_from_chars(trimmed.as_slice());
        let ghost old_res = res@;
        res.push(piece);
        assert(parts[k as int] == pieces@[k as int]@);
        assert(strings_view(res@) =~= strings_view(old_res).push(piece@));
        assert(parts.take(k + 1).map_values(|p: Seq<char>| trim(p)) =~= parts.take(k as int).map_values(
            |p: Seq<char>| trim(p),
        ).push(trim(parts[k as int])));
        k = k + 1;
    }
    assert(parts.take(pieces@.len() as int) =~= parts);
    res
}

} // verus!
