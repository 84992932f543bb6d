use vstd::prelude::*;

verus! {

/// `String::push` from std: appends one character to the string.
#[verifier::external_body]
pub(crate) fn push_char(s: &mut String, c: char)
    ensures
        final(s)@ == old(s)@.push(c),
{
    s.push(c);
}

/// The characters of `s`, in order.
pub fn chars_of(s: &str) -> (v: Vec<char>)
    ensures
        v@ == s@,
{
    let mut v: Vec<char> = Vec::new();
    for c in it: s.chars()
        invariant
            v@ == it.seq().take(it.index() as int),
    {
        v.push(c);
    }
    v
}

/// The string made of the characters `chars[lo..hi]`.
pub fn string_of(chars: &Vec<char>, lo: usize, hi: usize) -> (s: String)
    requires
        lo <= hi <= chars@.len(),
    ensures
        s@ == chars@.subrange(lo as int, hi as int),
{
    let mut s = String::new();
    let mut i = lo;
    while i < hi
        invariant
            lo <= i <= hi <= chars@.len(),
            s@ == chars@.subrange(lo as int, i as int),
        decreases hi - i,
    {
        push_char(&mut s, chars[i]);
        i = i + 1;
    }
    s
}


/// The pieces of `s` between occurrences of `sep`, as `str::split` with a
/// one-character pattern gives them: always at least one piece.
pub open spec fn split_on(s: Seq<char>, sep: char) -> Seq<Seq<char>>
    decreases s.len(),
{
    if s.len() == 0 {
        seq![Seq::<char>::empty()]
    } else {
        let prev = split_on(s.drop_last(), sep);
        if s.last() == sep {
            prev.push(Seq::<char>::empty())
        } else {
            prev.update(prev.len() - 1, prev.last().push(s.last()))
        }
    }
}

/// A split has at least one piece.
pub proof fn lemma_split_on_nonempty(s: Seq<char>, sep: char)
    ensures
        split_on(s, sep).len() >= 1,
    decreases s.len(),
{
    if s.len() > 0 {
        lemma_split_on_nonempty(s.drop_last(), sep);
    }
}

/// Splits `chars` at each `sep`; the pieces come back as strings.
pub fn split_chars(chars: &Vec<char>, sep: char) -> (pieces: Vec<String>)
    ensures
        pieces@.map_values(|p: String| p@) == split_on(chars@, sep),
{
    let mut pieces: Vec<String> = Vec::new();
    let mut current = String::new();
    let mut i: usize = 0;
    while i < chars.len()
        invariant
            i <= chars@.len(),
            pieces@.map_values(|p: String| p@).push(current@) == split_on(chars@.take(i as int), sep),
        decreases chars@.len() - i,
    {
        let c = chars[i];
        proof {
            assert(chars@.take(i as int + 1).drop_last() == chars@.take(i as int));
            lemma_split_on_nonempty(chars@.take(i as int), sep);
        }
        if c == sep {
            let done = current;
            pieces.push(done);
            current = String::new();
            assert(pieces@.map_values(|p: String| p@).push(current@) == split_on(chars@.take(i as int + 1), sep));
        } else {
            push_char(&mut current, c);
            assert(pieces@.map_values(|p: String| p@).push(current@) == split_on(chars@.take(i as int + 1), sep));
        }
        i = i + 1;
    }
    assert(chars@.take(chars@.len() as int) == chars@);
    pieces.push(current);
    pieces
}


/// A line with the carriage return that ended it removed.
pub open spec fn strip_cr(l: Seq<char>) -> Seq<char> {
    if l.len() > 0 && l.last() == '\r' {
        l.drop_last()
    } else {
        l
    }
}

/// The lines of `s` as `str::lines` gives them: split at `\n`, a `\r` right
/// before a `\n` dropped, and no empty line after a final `\n`.
pub open spec fn lines_of(s: Seq<char>) -> Seq<Seq<char>> {
    let segs = split_on(s, '\n');
    let ended = segs.drop_last().map_values(|l: Seq<char>| strip_cr(l));
    if segs.last().len() == 0 {
        ended
    } else {
        ended.push(segs.last())
    }
}

fn strip_cr_string(p: String) -> (r: String)
    ensures
        r@ == strip_cr(p@),
{
    let cs = chars_of(p.as_str());
    let n = cs.len();
    if n > 0 && cs[n - 1] == '\r' {
        string_of(&cs, 0, n - 1)
    } else {
        p
    }
}

/// The lines of `s`.
pub fn lines(s: &str) -> (ls: Vec<String>)
    ensures
        ls@.map_values(|l: String| l@) == lines_of(s@),
{
    let chars = chars_of(s);
    let pieces = split_chars(&chars, '\n');
    proof {
        lemma_split_on_nonempty(s@, '\n');
    }
    let ghost segs = split_on(s@, '\n');
    let n = pieces.len();
    assert(pieces@.map_values(|p: String| p@)[n - 1] == segs[n - 1]);
    let mut ls: Vec<String> = Vec::new();
    let mut i: usize = 0;
    while i + 1 < n
        invariant
            n == pieces@.len(),
            n == segs.len(),
            n >= 1,
            i + 1 <= n,
            pieces@.map_values(|p: String| p@) == segs,
            ls@.map_values(|l: String| l@) == segs.take(i as int).map_values(|l: Seq<char>| strip_cr(l)),
        decreases n - i,
    {
        assert(pieces@.map_values(|p: String| p@)[i as int] == segs[i as int]);
        let piece = pieces[i].clone();
        let line = strip_cr_string(piece);
        assert(line@ == strip_cr(segs[i as int]));
        let ghost before = ls@;
        ls.push(line);
        assert(segs.take(i as int + 1) == segs.take(i as int).push(segs[i as int]));
        assert(ls@.map_values(|l: String| l@) =~= before.map_values(|l: String| l@).push(line@));
        assert(segs.take(i as int + 1).map_values(|l: Seq<char>| strip_cr(l)) =~= segs.take(i as int).map_values(|l: Seq<char>| strip_cr(l)).push(strip_cr(segs[i as int])));
        i = i + 1;
    }
    assert(segs.take(i as int) == segs.drop_last());
    let last = pieces[n - 1].clone();
    if last.as_str().is_empty() {
        proof {
            assert(last@.len() == 0);
        }
        ls
    } else {
        let ghost before = ls@;
        ls.push(last);
        assert(ls@.map_values(|l: String| l@) =~= before.map_values(|l: String| l@).push(last@));
        assert(ls@.map_values(|l: String| l@) == lines_of(s@));
        ls
    }
}


/// `char::is_whitespace`: the characters with the Unicode White_Space property.
pub open spec fn is_white_space(c: char) -> bool {
    let v = c as u32;
    ||| 0x09 <= v <= 0x0D
    ||| v == 0x20
    ||| v == 0x85
    ||| v == 0xA0
    ||| v == 0x1680
    ||| 0x2000 <= v <= 0x200A
    ||| v == 0x2028
    ||| v == 0x2029
    ||| v == 0x202F
    ||| v == 0x205F
    ||| v == 0x3000
}

/// Whether `c` is white space.
pub fn white_space(c: char) -> (b: bool)
    ensures
        b == is_white_space(c),
{
    let v = c as u32;
    (0x09 <= v && v <= 0x0D) || v == 0x20 || v == 0x85 || v == 0xA0 || v == 0x1680
        || (0x2000 <= v && v <= 0x200A) || v == 0x2028 || v == 0x2029 || v == 0x202F
        || v == 0x205F || v == 0x3000
}

/// `s` without its leading white space.
pub open spec fn trim_start(s: Seq<char>) -> Seq<char>
    decreases s.len(),
{
    if s.len() > 0 && is_white_space(s[0]) {
        trim_start(s.drop_first())
    } else {
        s
    }
}

/// `s` without its trailing white space.
pub open spec fn trim_end(s: Seq<char>) -> Seq<char>
    decreases s.len(),
{
    if s.len() > 0 && is_white_space(s.last()) {
        trim_end(s.drop_last())
    } else {
        s
    }
}

/// `str::trim`: `s` without leading and trailing white space.
pub open spec fn trimmed(s: Seq<char>) -> Seq<char> {
    trim_end(trim_start(s))
}

/// `s` with leading and trailing white space removed.
pub fn trim(s: &str) -> (t: String)
    ensures
        t@ == trimmed(s@),
{
    let chars = chars_of(s);
    let n = chars.len();
    let mut lo: usize = 0;
    assert(chars@.subrange(0, n as int) == chars@);
    while lo < n && white_space(chars[lo])
        invariant
            lo <= n == chars@.len(),
            trim_start(chars@) == trim_start(chars@.subrange(lo as int, n as int)),
        decreases n - lo,
    {
        assert(chars@.subrange(lo as int, n as int).drop_first() == chars@.subrange(lo as int + 1, n as int));
        lo = lo + 1;
    }
    assert(trim_start(chars@) == chars@.subrange(lo as int, n as int));
    let mut hi: usize = n;
    while hi > lo && white_space(chars[hi - 1])
        invariant
            lo <= hi <= n == chars@.len(),
            trim_start(chars@) == chars@.subrange(lo as int, n as int),
            trimmed(chars@) == trim_end(chars@.subrange(lo as int, hi as int)),
        decreases hi - lo,
    {
        assert(chars@.subrange(lo as int, hi as int).drop_last() == chars@.subrange(lo as int, hi as int - 1));
        hi = hi - 1;
    }
    string_of(&chars, lo, hi)
}

/// `p` is a prefix of `s`.
pub open spec fn has_prefix(s: Seq<char>, p: Seq<char>) -> bool {
    p.len() <= s.len() && s.take(p.len() as int) == p
}

/// `p` is a suffix of `s`.
pub open spec fn has_suffix(s: Seq<char>, p: Seq<char>) -> bool {
    p.len() <= s.len() && s.skip(s.len() - p.len()) == p
}

/// Whether `s` starts with `p`.
pub fn starts_with(s: &Vec<char>, p: &Vec<char>) -> (b: bool)
    ensures
        b == has_prefix(s@, p@),
{
    if p.len() > s.len() {
        return false;
    }
    let mut i: usize = 0;
    while i < p.len()
        invariant
            p@.len() <= s@.len(),
            i <= p@.len(),
            s@.take(i as int) == p@.take(i as int),
        decreases p@.len() - i,
    {
        if s[i] != p[i] {
            assert(s@.take(p@.len() as int)[i as int] != p@[i as int]);
            return false;
        }
        assert(s@.take(i as int + 1) == s@.take(i as int).push(s@[i as int]));
        assert(p@.take(i as int + 1) == p@.take(i as int).push(p@[i as int]));
        i = i + 1;
    }
    assert(p@.take(p@.len() as int) == p@);
    true
}

/// Whether `s` ends with `p`.
pub fn ends_with(s: &Vec<char>, p: &Vec<char>) -> (b: bool)
    ensures
        b == has_suffix(s@, p@),
{
    if p.len() > s.len() {
        return false;
    }
    let off = s.len() - p.len();
    let mut i: usize = 0;
    while i < p.len()
        invariant
            p@.len() <= s@.len(),
            off == s@.len() - p@.len(),
            off + p.len() == s.len(),
            i <= p@.len(),
            forall|j: int| 0 <= j < i ==> s@[off + j] == p@[j],
        decreases p@.len() - i,
    {
        if s[off + i] != p[i] {
            assert(s@.skip(off as int)[i as int] != p@[i as int]);
            return false;
        }
        i = i + 1;
    }
    assert(s@.skip(off as int) =~= p@);
    true
}

/// The value that ASCII case folding gives a character: `A`..`Z` become
/// `a`..`z`, everything else stays.
pub open spec fn fold_ascii(c: char) -> u32 {
    if 'A' <= c && c <= 'Z' {
        (c as u32 + 32) as u32
    } else {
        c as u32
    }
}

/// `str::eq_ignore_ascii_case`: the same characters up to ASCII case.
pub open spec fn equal_ignoring_ascii_case(a: Seq<char>, b: Seq<char>) -> bool {
    a.len() == b.len() && forall|i: int| 0 <= i < a.len() ==> fold_ascii(a[i]) == fold_ascii(b[i])
}

fn fold_char(c: char) -> (v: u32)
    ensures
        v == fold_ascii(c),
{
    if 'A' <= c && c <= 'Z' {
        c as u32 + 32
    } else {
        c as u32
    }
}

/// Whether `a` and `b` are equal up to ASCII case.
pub fn eq_ignore_ascii_case(a: &Vec<char>, b: &Vec<char>) -> (r: bool)
    ensures
        r == equal_ignoring_ascii_case(a@, b@),
{
    if a.len() != b.len() {
        return false;
    }
    let mut i: usize = 0;
    while i < a.len()
        invariant
            a@.len() == b@.len(),
            i <= a@.len(),
            forall|j: int| 0 <= j < i ==> fold_ascii(a@[j]) == fold_ascii(b@[j]),
        decreases a@.len() - i,
    {
        if fold_char(a[i]) != fold_char(b[i]) {
            return false;
        }
        i = i + 1;
    }
    true
}

/// `char::to_ascii_uppercase`.
pub open spec fn upper_ascii(c: char) -> char {
    if 'a' <= c && c <= 'z' {
        ((c as u32 - 32) as u8) as char
    } else {
        c
    }
}

fn upper_char(c: char) -> (u: char)
    ensures
        u == upper_ascii(c),
{
    if 'a' <= c && c <= 'z' {
        ((c as u32 - 32) as u8) as char
    } else {
        c
    }
}

/// `str::to_ascii_uppercase`.
pub fn to_ascii_uppercase(s: &str) -> (u: String)
    ensures
        u@ == s@.map_values(|c: char| upper_ascii(c)),
{
    let chars = chars_of(s);
    let mut u = String::new();
    let mut i: usize = 0;
    while i < chars.len()
        invariant
            i <= chars@.len(),
            u@ == chars@.take(i as int).map_values(|c: char| upper_ascii(c)),
        decreases chars@.len() - i,
    {
        push_char(&mut u, upper_char(chars[i]));
        assert(chars@.take(i as int + 1) == chars@.take(i as int).push(chars@[i as int]));
        assert(chars@.take(i as int + 1).map_values(|c: char| upper_ascii(c)) =~= chars@.take(i as int).map_values(|c: char| upper_ascii(c)).push(upper_ascii(chars@[i as int])));
        i = i + 1;
    }
    assert(chars@.take(chars@.len() as int) == chars@);
    u
}

/// `s` with every `from` replaced by `to`.
pub open spec fn replace_char(s: Seq<char>, from: char, to: char) -> Seq<char> {
    s.map_values(|c: char| if c == from { to } else { c })
}

/// `str::replace` with one-character patterns.
pub fn replace(s: &str, from: char, to: char) -> (r: String)
    ensures
        r@ == replace_char(s@, from, to),
{
    let chars = chars_of(s);
    let mut r = String::new();
    let mut i: usize = 0;
    while i < chars.len()
        invariant
            i <= chars@.len(),
            r@ == replace_char(chars@.take(i as int), from, to),
        decreases chars@.len() - i,
    {
        let c = chars[i];
        if c == from {
            push_char(&mut r, to);
        } else {
            push_char(&mut r, c);
        }
        assert(chars@.take(i as int + 1) == chars@.take(i as int).push(c));
        assert(replace_char(chars@.take(i as int + 1), from, to) =~= replace_char(chars@.take(i as int), from, to).push(if c == from { to } else { c }));
        i = i + 1;
    }
    assert(chars@.take(chars@.len() as int) == chars@);
    r
}


/// Whether two character sequences are equal.
pub fn same_chars(a: &Vec<char>, b: &Vec<char>) -> (r: bool)
    ensures
        r == (a@ == b@),
{
    if a.len() != b.len() {
        return false;
    }
    let mut i: usize = 0;
    while i < a.len()
        invariant
            a@.len() == b@.len(),
            i <= a@.len(),
            forall|j: int| 0 <= j < i ==> a@[j] == b@[j],
        decreases a@.len() - i,
    {
        if a[i] != b[i] {
            return false;
        }
        i = i + 1;
    }
    assert(a@ =~= b@);
    true
}


/// `a` followed by `b`.
pub fn concatenate(a: &str, b: &str) -> (r: String)
    ensures
        r@ == a@ + b@,
{
    let bc = chars_of(b);
    let mut r = a.to_owned();
    let mut i: usize = 0;
    while i < bc.len()
        invariant
            i <= bc@.len(),
            r@ == a@ + bc@.take(i as int),
        decreases bc@.len() - i,
    {
        push_char(&mut r, bc[i]);
        assert(bc@.take(i as int + 1) == bc@.take(i as int).push(bc@[i as int]));
        i = i + 1;
    }
    assert(bc@.take(bc@.len() as int) == bc@);
    r
}


/// The pieces joined back together, with `sep` between each two.
pub open spec fn join_with(pieces: Seq<Seq<char>>, sep: char) -> Seq<char>
    decreases pieces.len(),
{
    if pieces.len() == 0 {
        Seq::<char>::empty()
    } else if pieces.len() == 1 {
        pieces[0]
    } else {
        join_with(pieces.drop_last(), sep) + seq![sep] + pieces.last()
    }
}

proof fn lemma_join_extend_last(ps: Seq<Seq<char>>, sep: char, c: char)
    requires
        ps.len() >= 1,
    ensures
        join_with(ps.update(ps.len() - 1, ps.last().push(c)), sep) == join_with(ps, sep).push(c),
{
    let qs = ps.update(ps.len() - 1, ps.last().push(c));
    if ps.len() == 1 {
        assert(qs[0] == ps[0].push(c));
    } else {
        assert(qs.drop_last() == ps.drop_last());
        assert(qs.last() == ps.last().push(c));
        assert(join_with(qs, sep) == join_with(ps.drop_last(), sep) + seq![sep] + ps.last().push(c));
        assert((join_with(ps.drop_last(), sep) + seq![sep] + ps.last()).push(c)
            =~= join_with(ps.drop_last(), sep) + seq![sep] + ps.last().push(c));
    }
}

/// Splitting loses nothing: joining the pieces of `s` at `sep` with `sep`
/// gives `s` back.
pub proof fn law_split_join(s: Seq<char>, sep: char)
    ensures
        join_with(split_on(s, sep), sep) == s,
    decreases s.len(),
{
    if s.len() > 0 {
        let prev = split_on(s.drop_last(), sep);
        law_split_join(s.drop_last(), sep);
        lemma_split_on_nonempty(s.drop_last(), sep);
        if s.last() == sep {
            let ps = prev.push(Seq::<char>::empty());
            assert(ps.drop_last() == prev);
            assert(join_with(ps, sep) =~= s);
        } else {
            lemma_join_extend_last(prev, sep, s.last());
            assert(s.drop_last().push(s.last()) == s);
        }
    }
}

/// No piece of a split holds the separator.
pub proof fn law_split_pieces_free_of_separator(s: Seq<char>, sep: char)
    ensures
        forall|i: int, j: int|
            0 <= i < split_on(s, sep).len() && 0 <= j < split_on(s, sep)[i].len()
                ==> split_on(s, sep)[i][j] != sep,
    decreases s.len(),
{
    if s.len() > 0 {
        law_split_pieces_free_of_separator(s.drop_last(), sep);
        lemma_split_on_nonempty(s.drop_last(), sep);
        let prev = split_on(s.drop_last(), sep);
        if s.last() != sep {
            assert forall|i: int, j: int|
                0 <= i < split_on(s, sep).len() && 0 <= j < split_on(s, sep)[i].len()
                implies split_on(s, sep)[i][j] != sep by {
                if i == prev.len() - 1 {
                    assert(split_on(s, sep)[i] == prev.last().push(s.last()));
                } else {
                    assert(split_on(s, sep)[i] == prev[i]);
                }
            }
        } else {
            assert forall|i: int, j: int|
                0 <= i < split_on(s, sep).len() && 0 <= j < split_on(s, sep)[i].len()
                implies split_on(s, sep)[i][j] != sep by {
                if i < prev.len() {
                    assert(split_on(s, sep)[i] == prev[i]);
                }
            }
        }
    }
}

/// No line holds a line feed.
pub proof fn law_lines_free_of_newline(s: Seq<char>)
    ensures
        forall|i: int, j: int|
            0 <= i < lines_of(s).len() && 0 <= j < lines_of(s)[i].len() ==> lines_of(s)[i][j] != '\n',
{
    law_split_pieces_free_of_separator(s, '\n');
    lemma_split_on_nonempty(s, '\n');
    let segs = split_on(s, '\n');
    assert forall|i: int, j: int|
        0 <= i < lines_of(s).len() && 0 <= j < lines_of(s)[i].len() implies lines_of(s)[i][j] != '\n' by {
        if i < segs.len() - 1 {
            assert(lines_of(s)[i] == strip_cr(segs[i]));
            assert(segs.drop_last()[i] == segs[i]);
            if segs[i].len() > 0 && segs[i].last() == '\r' {
                assert(lines_of(s)[i][j] == segs[i][j]);
            }
        } else {
            assert(lines_of(s)[i] == segs[segs.len() - 1]);
        }
    }
}

/// All of `w` is white space.
pub open spec fn all_white_space(w: Seq<char>) -> bool {
    forall|i: int| 0 <= i < w.len() ==> is_white_space(w[i])
}

proof fn lemma_trim_start_skips(w: Seq<char>, t: Seq<char>)
    requires
        all_white_space(w),
    ensures
        trim_start(w + t) == trim_start(t),
    decreases w.len(),
{
    if w.len() > 0 {
        assert((w + t)[0] == w[0]);
        assert((w + t).drop_first() == w.drop_first() + t);
        lemma_trim_start_skips(w.drop_first(), t);
    } else {
        assert(w + t == t);
    }
}

proof fn lemma_trim_end_skips(t: Seq<char>, w: Seq<char>)
    requires
        all_white_space(w),
    ensures
        trim_end(t + w) == trim_end(t),
    decreases w.len(),
{
    if w.len() > 0 {
        assert((t + w).last() == w.last());
        assert((t + w).drop_last() == t + w.drop_last());
        lemma_trim_end_skips(t, w.drop_last());
    } else {
        assert(t + w == t);
    }
}

proof fn lemma_trim_end_keeps_head(x: Seq<char>)
    requires
        x.len() > 0,
        !is_white_space(x[0]),
    ensures
        trim_end(x).len() > 0,
        trim_end(x)[0] == x[0],
    decreases x.len(),
{
    if x.len() > 1 && is_white_space(x.last()) {
        lemma_trim_end_keeps_head(x.drop_last());
    }
}

proof fn lemma_trim_start_keeps_tail(x: Seq<char>)
    requires
        x.len() > 0,
        !is_white_space(x.last()),
    ensures
        trim_start(x).len() > 0,
        trim_start(x).last() == x.last(),
    decreases x.len(),
{
    if x.len() > 1 && is_white_space(x[0]) {
        lemma_trim_start_keeps_tail(x.drop_first());
    }
}

proof fn lemma_trim_commutes(x: Seq<char>)
    ensures
        trim_end(trim_start(x)) == trim_start(trim_end(x)),
    decreases x.len(),
{
    if x.len() == 0 {
    } else if !is_white_space(x[0]) {
        lemma_trim_end_keeps_head(x);
        assert(trim_start(x) == x);
        assert(trim_start(trim_end(x)) == trim_end(x));
    } else if !is_white_space(x.last()) {
        lemma_trim_start_keeps_tail(x);
        assert(trim_end(x) == x);
        assert(trim_end(trim_start(x)) == trim_start(x));
    } else if x.len() == 1 {
        assert(x.drop_first().len() == 0);
        assert(x.drop_last().len() == 0);
        assert(trim_start(x) == trim_start(x.drop_first()));
        assert(trim_end(x) == trim_end(x.drop_last()));
    } else {
        let y = x.drop_first().drop_last();
        assert(x.drop_first().last() == x.last());
        assert(x.drop_last()[0] == x[0]);
        assert(x.drop_last().drop_first() == y);
        lemma_trim_commutes(x.drop_first());
        lemma_trim_commutes(y);
        assert(trim_start(x) == trim_start(x.drop_first()));
        assert(trim_end(x.drop_first()) == trim_end(y));
        assert(trim_end(x) == trim_end(x.drop_last()));
        assert(trim_start(x.drop_last()) == trim_start(y));
        lemma_trim_commutes(x.drop_last());
    }
}

/// Trimming ignores white space around the text: padding `s` with white
/// space on either side does not change what trimming gives.
pub proof fn law_trim_ignores_padding(w1: Seq<char>, s: Seq<char>, w2: Seq<char>)
    requires
        all_white_space(w1),
        all_white_space(w2),
    ensures
        trimmed(w1 + s + w2) == trimmed(s),
{
    assert(w1 + s + w2 == w1 + (s + w2));
    lemma_trim_start_skips(w1, s + w2);
    lemma_trim_commutes(s + w2);
    lemma_trim_end_skips(s, w2);
    lemma_trim_commutes(s);
}

/// Trimming twice is trimming once.
pub proof fn law_trim_idempotent(s: Seq<char>)
    ensures
        trimmed(trimmed(s)) == trimmed(s),
{
    let u = trim_start(s);
    lemma_trim_start_result(s);
    lemma_trim_end_result(u);
    if u.len() > 0 {
        lemma_trim_end_keeps_head(u);
    }
}

proof fn lemma_trim_start_result(x: Seq<char>)
    ensures
        trim_start(x).len() == 0 || !is_white_space(trim_start(x)[0]),
    decreases x.len(),
{
    if x.len() > 0 && is_white_space(x[0]) {
        lemma_trim_start_result(x.drop_first());
    }
}

proof fn lemma_trim_end_result(x: Seq<char>)
    ensures
        trim_end(x).len() == 0 || !is_white_space(trim_end(x).last()),
    decreases x.len(),
{
    if x.len() > 0 && is_white_space(x.last()) {
        lemma_trim_end_result(x.drop_last());
    }
}

/// Equality up to ASCII case is an equivalence: reflexive, symmetric and
/// transitive.
pub proof fn law_ascii_case_equivalence(a: Seq<char>, b: Seq<char>, c: Seq<char>)
    ensures
        equal_ignoring_ascii_case(a, a),
        equal_ignoring_ascii_case(a, b) ==> equal_ignoring_ascii_case(b, a),
        equal_ignoring_ascii_case(a, b) && equal_ignoring_ascii_case(b, c)
            ==> equal_ignoring_ascii_case(a, c),
{
}

} // verus!
