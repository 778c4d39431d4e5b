//! Characters, runs of characters, and the way between strings and vectors
//! of characters.

use vstd::prelude::*;

verus! {

/// `String::push` of the standard library: the character is added at the end.
pub assume_specification[ String::push ](s: &mut String, ch: char)
    ensures
        final(s)@ == old(s)@.push(ch),
;

/// White space as Unicode defines it: the characters that trimming removes.
pub open spec fn is_blank(c: char) -> bool {
    let n = c as u32;
    ||| 0x09 <= n <= 0x0D
    ||| n == 0x20
    ||| n == 0x85
    ||| n == 0xA0
    ||| n == 0x1680
    ||| 0x2000 <= n <= 0x200A
    ||| n == 0x2028
    ||| n == 0x2029
    ||| n == 0x202F
    ||| n == 0x205F
    ||| n == 0x3000
}

/// ASCII white space: space, tab, line feed, form feed, carriage return.
pub open spec fn is_ascii_blank(c: char) -> bool {
    c == ' ' || c == '\t' || c == '\n' || c == '\x0C' || c == '\r'
}

/// A class of characters that a scan passes over or stops at.
#[derive(Clone, Copy, Debug)]
pub enum Class {
    /// Unicode white space.
    Blank,
    /// ASCII white space.
    AsciiBlank,
    /// The comment sign `#`.
    Hash,
}

impl Class {
    /// Whether `c` belongs to the class.
    pub open spec fn has(self, c: char) -> bool {
        match self {
            Class::Blank => is_blank(c),
            Class::AsciiBlank => is_ascii_blank(c),
            Class::Hash => c == '#',
        }
    }

    /// Tests whether `c` belongs to the class.
    pub fn contains(self, c: char) -> (b: bool)
        ensures
            b == self.has(c),
    {
        match self {
            Class::Blank => {
                let n: u32 = c as u32;
                (0x09 <= n && n <= 0x0D) || n == 0x20 || n == 0x85 || n == 0xA0 || n == 0x1680 || (
                0x2000 <= n && n <= 0x200A) || n == 0x2028 || n == 0x2029 || n == 0x202F || n
                    == 0x205F || n == 0x3000
            },
            Class::AsciiBlank => c == ' ' || c == '\t' || c == '\n' || c == '\x0C' || c == '\r',
            Class::Hash => c == '#',
        }
    }
}

/// Where a scan stops that starts at `from` and moves right for as long as
/// the characters' membership in `class` is `member`.
pub open spec fn scan(s: Seq<char>, from: int, class: Class, member: bool) -> int
    decreases s.len() - from,
{
    if 0 <= from < s.len() && class.has(s[from]) == member {
        scan(s, from + 1, class, member)
    } else {
        from
    }
}

/// Where a scan stops that starts before `to` and moves left for as long as
/// the characters' membership in `class` is `member`.
pub open spec fn scan_back(s: Seq<char>, to: int, class: Class, member: bool) -> int
    decreases to,
{
    if 0 < to <= s.len() && class.has(s[to - 1]) == member {
        scan_back(s, to - 1, class, member)
    } else {
        to
    }
}

/// A scan to the right stops inside the sequence, has passed only characters
/// of the wanted kind, and stops at the end or at a character of the other kind.
pub proof fn lemma_scan_stop(s: Seq<char>, from: int, class: Class, member: bool)
    requires
        0 <= from <= s.len(),
    ensures
        ({
            let at = scan(s, from, class, member);
            &&& from <= at <= s.len()
            &&& forall|k: int| from <= k < at ==> class.has(#[trigger] s[k]) == member
            &&& at < s.len() ==> class.has(s[at]) != member
        }),
    decreases s.len() - from,
{
    if from < s.len() && class.has(s[from]) == member {
        lemma_scan_stop(s, from + 1, class, member);
    }
}

/// A scan to the left stops inside the sequence, has passed only characters
/// of the wanted kind, and stops at the start or after a character of the
/// other kind.
pub proof fn lemma_scan_back_stop(s: Seq<char>, to: int, class: Class, member: bool)
    requires
        0 <= to <= s.len(),
    ensures
        ({
            let at = scan_back(s, to, class, member);
            &&& 0 <= at <= to
            &&& forall|k: int| at <= k < to ==> class.has(#[trigger] s[k]) == member
            &&& 0 < at ==> class.has(s[at - 1]) != member
        }),
    decreases to,
{
    if 0 < to && class.has(s[to - 1]) == member {
        lemma_scan_back_stop(s, to - 1, class, member);
    }
}

/// Scans `v` to the right from `from`.
pub fn scan_forward(v: &Vec<char>, from: usize, class: Class, member: bool) -> (at: usize)
    requires
        from <= v.len(),
    ensures
        at == scan(v@, from as int, class, member),
        from <= at <= v.len(),
{
    let mut at: usize = from;
    while at < v.len() && class.contains(v[at]) == member
        invariant
            from <= at <= v.len(),
            scan(v@, at as int, class, member) == scan(v@, from as int, class, member),
        decreases v.len() - at,
    {
        at = at + 1;
    }
    at
}

/// Scans `v` to the left from `to`.
pub fn scan_backward(v: &Vec<char>, to: usize, class: Class, member: bool) -> (at: usize)
    requires
        to <= v.len(),
    ensures
        at == scan_back(v@, to as int, class, member),
        at <= to,
{
    let mut at: usize = to;
    while at > 0 && class.contains(v[at - 1]) == member
        invariant
            at <= to <= v.len(),
            scan_back(v@, at as int, class, member) == scan_back(v@, to as int, class, member),
        decreases at,
    {
        at = at - 1;
    }
    at
}

/// The strings as sequences of characters.
pub open spec fn texts(strings: Seq<String>) -> Seq<Seq<char>> {
    Seq::new(strings.len(), |i: int| strings[i]@)
}

/// The characters of a string, in order.
pub fn to_chars(s: &str) -> (v: Vec<char>)
    ensures
        v@ == s@,
{
    let mut v: Vec<char> = Vec::new();
    for c in it: s.chars()
        invariant
            v@ == s@.take(it.index() as int),
            it.seq() == s@,
    {
        v.push(c);
    }
    v
}

/// The string made of the characters of `v` from `from` up to `to`.
pub fn from_chars(v: &Vec<char>, from: usize, to: usize) -> (s: String)
    requires
        from <= to <= v.len(),
    ensures
        s@ == v@.subrange(from as int, to as int),
{
    let mut s: String = String::new();
    let mut i: usize = from;
    while i < to
        invariant
            from <= i <= to <= v.len(),
            s@ == v@.subrange(from as int, i as int),
        decreases to - i,
    {
        s.push(v[i]);
        i = i + 1;
    }
    s
}

} // verus!
