use vstd::prelude::*;

verus! {

/// The characters of `s` from position `start` up to (not including) `end`,
/// both clamped to the length of `s`.
pub open spec fn clamped_range(s: Seq<char>, start: int, end: int) -> Seq<char> {
    let lo = if start < s.len() { start } else { s.len() as int };
    let hi = if end < s.len() { end } else { s.len() as int };
    s.subrange(lo, hi)
}

/// Character-indexed slicing that tolerates bounds past the end.
pub trait Substring: Sized {
    /// The characters that the value stands for.
    spec fn chars_view(&self) -> Seq<char>;

    /// The characters at positions `start .. end`, where positions past the
    /// end of the value are cut off.
    fn substring(&self, start: usize, end: usize) -> (r: Self)
        requires
            start <= end,
        ensures
            r.chars_view() == clamped_range(self.chars_view(), start as int, end as int),
    ;
}

impl Substring for String {
    open spec fn chars_view(&self) -> Seq<char> {
        self@
    }

    fn substring(&self, start: usize, end: usize) -> (r: String) {
        let s = self.as_str();
        let len = s.unicode_len();
        let lo = if start < len { start } else { len };
        let hi = if end < len { end } else { len };
        s.substring_char(lo, hi).to_owned()
    }
}

} // verus!
