use vstd::prelude::*;

use crate::argparse::strs;

verus! {

/// The characters with the Unicode `White_Space` property, which is what
/// `char::is_whitespace` tests.
pub open spec fn is_white_space(c: char) -> bool {
    let u = c as u32;
    ||| 0x09 <= u <= 0x0d
    ||| u == 0x20
    ||| u == 0x85
    ||| u == 0xa0
    ||| u == 0x1680
    ||| 0x2000 <= u <= 0x200a
    ||| u == 0x2028
    ||| u == 0x2029
    ||| u == 0x202f
    ||| u == 0x205f
    ||| u == 0x3000
}

/// The maximal runs of non-whitespace characters of `s`, in order.
pub open spec fn words(s: Seq<char>) -> Seq<Seq<char>>
    decreases s.len(),
{
    if s.len() == 0 {
        Seq::empty()
    } else {
        let r = words(s.drop_last());
        let c = s.last();
        if is_white_space(c) {
            r
        } else if s.len() >= 2 && !is_white_space(s[s.len() - 2]) {
            r.update(r.len() - 1, r.last().push(c))
        } else {
            r.push(seq![c])
        }
    }
}

/// Whether `c` is whitespace.
pub fn white_space(c: char) -> (r: bool)
    ensures
        r == is_white_space(c),
{
    let u = c as u32;
    (0x09 <= u && u <= 0x0d) || u == 0x20 || u == 0x85 || u == 0xa0 || u == 0x1680 || (0x2000
        <= u && u <= 0x200a) || u == 0x2028 || u == 0x2029 || u == 0x202f || u == 0x205f || u
        == 0x3000
}

/// Every word is non-empty and holds no whitespace.
pub proof fn lemma_words_shape(s: Seq<char>)
    ensures
        forall|i: int|
            0 <= i < words(s).len() ==> (#[trigger] words(s)[i]).len() > 0 && forall|j: int|
                0 <= j < words(s)[i].len() ==> !is_white_space(words(s)[i][j]),
    decreases s.len(),
{
    if s.len() > 0 {
        lemma_words_shape(s.drop_last());
        if s.len() >= 2 && !is_white_space(s[s.len() - 2]) && !is_white_space(s.last()) {
            lemma_words_non_empty(s.drop_last());
        }
    }
}

/// A text that ends in a non-whitespace character has at least one word.
proof fn lemma_words_non_empty(s: Seq<char>)
    requires
        s.len() > 0,
        !is_white_space(s.last()),
    ensures
        words(s).len() > 0,
    decreases s.len(),
{
    if s.len() >= 2 && !is_white_space(s[s.len() - 2]) {
        lemma_words_non_empty(s.drop_last());
    }
}

/// Splits a command line into words separated by whitespace: the first is
/// the program, the others its arguments. No quoting is recognised; a line
/// of whitespace alone gives no word.
pub fn split_command(cmd: &str) -> (r: Vec<String>)
    ensures
        strs(r@) == words(cmd@),
{
    let n = cmd.unicode_len();
    let mut out: Vec<String> = Vec::new();
    let mut start: usize = 0;
    let mut in_word = false;
    let mut i: usize = 0;
    assert(cmd@.subrange(0, 0) =~= Seq::<char>::empty());
    while i < n
        invariant
            n == cmd@.len(),
            start <= i <= n,
            in_word <==> (i > 0 && !is_white_space(cmd@[i - 1])),
            in_word ==> start < i,
            in_word ==> words(cmd@.subrange(0, i as int)) == strs(out@).push(
                cmd@.subrange(start as int, i as int),
            ),
            !in_word ==> words(cmd@.subrange(0, i as int)) == strs(out@),
        decreases n - i,
    {
        let c = cmd.get_char(i);
        let ghost prev = strs(out@);
        proof {
            let p = cmd@.subrange(0, i + 1);
            assert(p.drop_last() =~= cmd@.subrange(0, i as int));
            assert(p.last() == c);
            if i > 0 {
                assert(p[p.len() - 2] == cmd@[i - 1]);
            }
        }
        if white_space(c) {
            if in_word {
                let piece = cmd.substring_char(start, i).to_owned();
                out.push(piece);
                assert(strs(out@) =~= prev.push(piece@));
            }
            in_word = false;
        } else if in_word {
            proof {
                assert(cmd@.subrange(start as int, i + 1) =~= cmd@.subrange(
                    start as int,
                    i as int,
                ).push(c));
                assert(prev.push(cmd@.subrange(start as int, i as int)).update(
                    prev.len() as int,
                    cmd@.subrange(start as int, i + 1),
                ) =~= prev.push(cmd@.subrange(start as int, i + 1)));
            }
        } else {
            start = i;
            in_word = true;
            assert(cmd@.subrange(start as int, i + 1) =~= seq![c]);
        }
        i = i + 1;
    }
    assert(cmd@.subrange(0, n as int) =~= cmd@);
    if in_word {
        let ghost prev = strs(out@);
        let last = cmd.substring_char(start, n).to_owned();
        out.push(last);
        assert(strs(out@) =~= prev.push(last@));
    }
    out
}

} // verus!
