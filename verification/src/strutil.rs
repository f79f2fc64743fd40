use vstd::prelude::*;

verus! {

/// Equality of two string slices, stated over their character sequences.
pub fn str_eq(a: &str, b: &str) -> (r: bool)
    ensures
        r == (a@ == b@),
{
    let x: String = a.to_owned();
    let y: String = b.to_owned();
    x == y
}

/// The position of the first occurrence of `c` in `s`, or `s.len()` when
/// there is none.
pub open spec fn find_char_pos(s: Seq<char>, c: char) -> int
    decreases s.len(),
{
    if s.len() == 0 {
        0
    } else if s[0] == c {
        0
    } else {
        1 + find_char_pos(s.subrange(1, s.len() as int), c)
    }
}

pub proof fn lemma_find_char_pos(s: Seq<char>, c: char)
    ensures
        0 <= find_char_pos(s, c) <= s.len(),
        forall|j: int| 0 <= j < find_char_pos(s, c) ==> s[j] != c,
        find_char_pos(s, c) < s.len() ==> s[find_char_pos(s, c)] == c,
    decreases s.len(),
{
    if s.len() == 0 {
    } else if s[0] == c {
    } else {
        let t = s.subrange(1, s.len() as int);
        lemma_find_char_pos(t, c);
        assert forall|j: int| 0 <= j < find_char_pos(s, c) implies s[j] != c by {
            if j > 0 {
                assert(t[j - 1] == s[j]);
            }
        }
        if find_char_pos(s, c) < s.len() {
            assert(t[find_char_pos(s, c) - 1] == s[find_char_pos(s, c)]);
        }
    }
}

/// Any position left of which `c` does not stand, and which holds `c` or
/// is the end, is the first occurrence.
pub proof fn lemma_find_char_pos_unique(s: Seq<char>, c: char, i: int)
    requires
        0 <= i <= s.len(),
        forall|j: int| 0 <= j < i ==> s[j] != c,
        i < s.len() ==> s[i] == c,
    ensures
        find_char_pos(s, c) == i,
    decreases s.len(),
{
    if s.len() == 0 {
    } else if s[0] == c {
        assert(i == 0);
    } else {
        let t = s.subrange(1, s.len() as int);
        assert(i >= 1);
        assert forall|j: int| 0 <= j < i - 1 implies t[j] != c by {
            assert(t[j] == s[j + 1]);
        }
        assert(i - 1 < t.len() ==> t[i - 1] == s[i]);
        lemma_find_char_pos_unique(t, c, i - 1);
    }
}

/// The index of the first occurrence of `c` in `s`, or `s.len()` when
/// there is none.
pub fn find_char(s: &str, c: char) -> (i: usize)
    ensures
        i == find_char_pos(s@, c),
{
    let n = s.unicode_len();
    let mut i: usize = 0;
    while i < n && s.get_char(i) != c
        invariant
            0 <= i <= n,
            n == s@.len(),
            forall|j: int| 0 <= j < i ==> s@[j] != c,
        decreases n - i,
    {
        i = i + 1;
    }
    proof {
        lemma_find_char_pos_unique(s@, c, i as int);
    }
    i
}


/// ASCII whitespace, as trimmed from header names and values.
pub open spec fn is_space_char(c: char) -> bool {
    c == ' ' || c == '\t' || c == '\n' || c == '\r' || c == '\u{b}' || c == '\u{c}'
}

/// The first index in `s` that holds no whitespace, or `s.len()`.
pub open spec fn trim_start_pos(s: Seq<char>) -> int
    decreases s.len(),
{
    if s.len() == 0 {
        0
    } else if !is_space_char(s[0]) {
        0
    } else {
        1 + trim_start_pos(s.subrange(1, s.len() as int))
    }
}

/// One past the last index in `s` that holds no whitespace, or 0.
pub open spec fn trim_end_pos(s: Seq<char>) -> int
    decreases s.len(),
{
    if s.len() == 0 {
        0
    } else if !is_space_char(s[s.len() - 1]) {
        s.len() as int
    } else {
        trim_end_pos(s.subrange(0, s.len() - 1))
    }
}

/// `s` with leading and trailing whitespace removed.
pub open spec fn trim_spec(s: Seq<char>) -> Seq<char> {
    if trim_start_pos(s) <= trim_end_pos(s) {
        s.subrange(trim_start_pos(s), trim_end_pos(s))
    } else {
        Seq::empty()
    }
}

proof fn lemma_trim_start_pos(s: Seq<char>)
    ensures
        0 <= trim_start_pos(s) <= s.len(),
        forall|j: int| 0 <= j < trim_start_pos(s) ==> is_space_char(s[j]),
        trim_start_pos(s) < s.len() ==> !is_space_char(s[trim_start_pos(s)]),
    decreases s.len(),
{
    if s.len() == 0 || !is_space_char(s[0]) {
    } else {
        let t = s.subrange(1, s.len() as int);
        lemma_trim_start_pos(t);
        assert forall|j: int| 0 <= j < trim_start_pos(s) implies is_space_char(s[j]) by {
            if j > 0 {
                assert(t[j - 1] == s[j]);
            }
        }
        if trim_start_pos(s) < s.len() {
            assert(t[trim_start_pos(s) - 1] == s[trim_start_pos(s)]);
        }
    }
}

proof fn lemma_trim_start_pos_unique(s: Seq<char>, i: int)
    requires
        0 <= i <= s.len(),
        forall|j: int| 0 <= j < i ==> is_space_char(s[j]),
        i < s.len() ==> !is_space_char(s[i]),
    ensures
        trim_start_pos(s) == i,
    decreases s.len(),
{
    if s.len() == 0 {
    } else if !is_space_char(s[0]) {
        assert(i == 0);
    } else {
        let t = s.subrange(1, s.len() as int);
        assert(i >= 1);
        assert forall|j: int| 0 <= j < i - 1 implies is_space_char(t[j]) by {
            assert(t[j] == s[j + 1]);
        }
        assert(i - 1 < t.len() ==> t[i - 1] == s[i]);
        lemma_trim_start_pos_unique(t, i - 1);
    }
}

proof fn lemma_trim_end_pos_unique(s: Seq<char>, i: int)
    requires
        0 <= i <= s.len(),
        forall|j: int| i <= j < s.len() ==> is_space_char(s[j]),
        i > 0 ==> !is_space_char(s[i - 1]),
    ensures
        trim_end_pos(s) == i,
    decreases s.len(),
{
    if s.len() == 0 {
    } else if !is_space_char(s[s.len() - 1]) {
        assert(i == s.len());
    } else {
        let t = s.subrange(0, s.len() - 1);
        assert(i <= t.len());
        assert forall|j: int| i <= j < t.len() implies is_space_char(t[j]) by {
            assert(t[j] == s[j]);
        }
        if i > 0 {
            assert(t[i - 1] == s[i - 1]);
        }
        lemma_trim_end_pos_unique(t, i);
    }
}

/// Whether `c` is trimmed as whitespace.
pub fn is_space(c: char) -> (r: bool)
    ensures
        r == is_space_char(c),
{
    c == ' ' || c == '\t' || c == '\n' || c == '\r' || c == '\u{b}' || c == '\u{c}'
}

/// `s` with leading and trailing whitespace removed.
pub fn trim_str(s: &str) -> (r: &str)
    ensures
        r@ == trim_spec(s@),
{
    let n = s.unicode_len();
    let mut a: usize = 0;
    while a < n && is_space(s.get_char(a))
        invariant
            0 <= a <= n,
            n == s@.len(),
            forall|j: int| 0 <= j < a ==> is_space_char(s@[j]),
        decreases n - a,
    {
        a = a + 1;
    }
    proof {
        lemma_trim_start_pos_unique(s@, a as int);
    }
    let mut b: usize = n;
    while b > a && is_space(s.get_char(b - 1))
        invariant
            a <= b <= n,
            n == s@.len(),
            forall|j: int| b <= j < n ==> is_space_char(s@[j]),
        decreases b,
    {
        b = b - 1;
    }
    if b == a {
        proof {
            lemma_trim_start_pos_unique(s@, n as int);
            lemma_trim_end_pos_unique(s@, 0);
            assert(s@.subrange(a as int, a as int) =~= trim_spec(s@));
        }
        s.substring_char(a, a)
    } else {
        proof {
            lemma_trim_end_pos_unique(s@, b as int);
        }
        s.substring_char(a, b)
    }
}

/// The index of the first non-whitespace character, or `s.len()`.
pub fn trim_start_index(s: &str) -> (i: usize)
    ensures
        i == trim_start_pos(s@),
        0 <= i <= s@.len(),
{
    let n = s.unicode_len();
    let mut a: usize = 0;
    while a < n && is_space(s.get_char(a))
        invariant
            0 <= a <= n,
            n == s@.len(),
            forall|j: int| 0 <= j < a ==> is_space_char(s@[j]),
        decreases n - a,
    {
        a = a + 1;
    }
    proof {
        lemma_trim_start_pos_unique(s@, a as int);
    }
    a
}

/// Lexicographic order on character sequences, by code point.
pub open spec fn lex_le(a: Seq<char>, b: Seq<char>) -> bool
    decreases a.len(),
{
    if a.len() == 0 {
        true
    } else if b.len() == 0 {
        false
    } else if (a[0] as u32) < (b[0] as u32) {
        true
    } else if (a[0] as u32) > (b[0] as u32) {
        false
    } else {
        lex_le(a.subrange(1, a.len() as int), b.subrange(1, b.len() as int))
    }
}

/// Whether `a` comes no later than `b` in lexicographic order.
pub fn str_le(a: &str, b: &str) -> (r: bool)
    ensures
        r == lex_le(a@, b@),
    decreases a@.len(),
{
    let an = a.unicode_len();
    let bn = b.unicode_len();
    if an == 0 {
        true
    } else if bn == 0 {
        false
    } else {
        let ca = a.get_char(0);
        let cb = b.get_char(0);
        if (ca as u32) < (cb as u32) {
            true
        } else if (ca as u32) > (cb as u32) {
            false
        } else {
            str_le(a.substring_char(1, an), b.substring_char(1, bn))
        }
    }
}

/// The character sequences of a list of strings.
pub open spec fn views_of(ws: Seq<String>) -> Seq<Seq<char>> {
    ws.map_values(|s: String| s@)
}

/// `x` inserted into `sorted` before the first element it comes strictly
/// ahead of; after any equal elements, so the sort is stable.
pub open spec fn insert_line_sorted(sorted: Seq<Seq<char>>, x: Seq<char>) -> Seq<Seq<char>>
    decreases sorted.len(),
{
    if sorted.len() == 0 {
        seq![x]
    } else if lex_le(x, sorted[0]) && !lex_le(sorted[0], x) {
        seq![x] + sorted
    } else {
        seq![sorted[0]] + insert_line_sorted(sorted.subrange(1, sorted.len() as int), x)
    }
}

/// Stable insertion sort of character sequences in lexicographic order.
pub open spec fn sort_lines_spec(s: Seq<Seq<char>>) -> Seq<Seq<char>>
    decreases s.len(),
{
    if s.len() == 0 {
        Seq::empty()
    } else {
        insert_line_sorted(sort_lines_spec(s.subrange(0, s.len() - 1)), s[s.len() - 1])
    }
}

/// Inserting at the first position whose element `x` comes strictly ahead
/// of matches the specification insertion.
proof fn lemma_insert_line_sorted_at(sorted: Seq<Seq<char>>, x: Seq<char>, p: int)
    requires
        0 <= p <= sorted.len(),
        forall|j: int| 0 <= j < p ==> !(lex_le(x, sorted[j]) && !lex_le(sorted[j], x)),
        p < sorted.len() ==> lex_le(x, sorted[p]) && !lex_le(sorted[p], x),
    ensures
        insert_line_sorted(sorted, x) == sorted.subrange(0, p) + seq![x] + sorted.subrange(
            p,
            sorted.len() as int,
        ),
    decreases sorted.len(),
{
    if sorted.len() == 0 {
        assert(insert_line_sorted(sorted, x) =~= sorted.subrange(0, p) + seq![x]
            + sorted.subrange(p, sorted.len() as int));
    } else if lex_le(x, sorted[0]) && !lex_le(sorted[0], x) {
        assert(p == 0);
        assert(insert_line_sorted(sorted, x) =~= sorted.subrange(0, p) + seq![x]
            + sorted.subrange(p, sorted.len() as int));
    } else {
        assert(p >= 1);
        let t = sorted.subrange(1, sorted.len() as int);
        assert forall|j: int| 0 <= j < p - 1 implies !(lex_le(x, t[j]) && !lex_le(t[j], x)) by {
            assert(t[j] == sorted[j + 1]);
        }
        assert(p - 1 < t.len() ==> t[p - 1] == sorted[p]);
        lemma_insert_line_sorted_at(t, x, p - 1);
        assert(insert_line_sorted(sorted, x) =~= sorted.subrange(0, p) + seq![x]
            + sorted.subrange(p, sorted.len() as int));
    }
}

/// Insertion grows the sequence by one.
pub proof fn lemma_insert_line_len(sorted: Seq<Seq<char>>, x: Seq<char>)
    ensures
        insert_line_sorted(sorted, x).len() == sorted.len() + 1,
    decreases sorted.len(),
{
    if sorted.len() == 0 {
    } else if lex_le(x, sorted[0]) && !lex_le(sorted[0], x) {
    } else {
        lemma_insert_line_len(sorted.subrange(1, sorted.len() as int), x);
    }
}

/// Sorting keeps the length.
pub proof fn lemma_sort_lines_len(s: Seq<Seq<char>>)
    ensures
        sort_lines_spec(s).len() == s.len(),
    decreases s.len(),
{
    if s.len() == 0 {
    } else {
        lemma_sort_lines_len(s.subrange(0, s.len() - 1));
        lemma_insert_line_len(sort_lines_spec(s.subrange(0, s.len() - 1)), s[s.len() - 1]);
    }
}

/// Sort strings lexicographically (stable).
pub fn sort_strings(v: &Vec<String>) -> (r: Vec<String>)
    ensures
        views_of(r@) == sort_lines_spec(views_of(v@)),
{
    let mut out: Vec<String> = Vec::new();
    let mut i: usize = 0;
    while i < v.len()
        invariant
            0 <= i <= v@.len(),
            views_of(out@) == sort_lines_spec(views_of(v@).subrange(0, i as int)),
        decreases v@.len() - i,
    {
        let x = v[i].clone();
        let mut p: usize = 0;
        while p < out.len() && !(str_le(x.as_str(), out[p].as_str()) && !str_le(
            out[p].as_str(),
            x.as_str(),
        ))
            invariant
                0 <= p <= out@.len(),
                forall|j: int|
                    0 <= j < p ==> !(lex_le(x@, views_of(out@)[j]) && !lex_le(
                        views_of(out@)[j],
                        x@,
                    )),
            decreases out@.len() - p,
        {
            p = p + 1;
        }
        proof {
            lemma_insert_line_sorted_at(views_of(out@), x@, p as int);
        }
        let ghost prev = out@;
        out.insert(p, x);
        proof {
            assert(views_of(out@) =~= views_of(prev).subrange(0, p as int) + seq![x@]
                + views_of(prev).subrange(p as int, prev.len() as int));
            assert(views_of(v@).subrange(0, i + 1).subrange(0, i as int) =~= views_of(
                v@,
            ).subrange(0, i as int));
            assert(views_of(v@).subrange(0, i + 1)[i as int] == v@[i as int]@);
        }
        i = i + 1;
    }
    proof {
        assert(views_of(v@).subrange(0, v@.len() as int) =~= views_of(v@));
    }
    out
}

/// Copy a list of strings.
pub fn copy_strings(v: &Vec<String>) -> (r: Vec<String>)
    ensures
        views_of(r@) == views_of(v@),
{
    let mut out: Vec<String> = Vec::new();
    let mut i: usize = 0;
    while i < v.len()
        invariant
            0 <= i <= v@.len(),
            views_of(out@) == views_of(v@).subrange(0, i as int),
        decreases v@.len() - i,
    {
        let ghost prev = out@;
        out.push(v[i].clone());
        proof {
            assert(views_of(out@) =~= views_of(prev).push(v@[i as int]@));
            assert(views_of(out@) =~= views_of(v@).subrange(0, i + 1));
        }
        i = i + 1;
    }
    proof {
        assert(views_of(v@).subrange(0, v@.len() as int) =~= views_of(v@));
    }
    out
}

/// The lines joined with a newline between each pair.
pub open spec fn join_newlines(lines: Seq<Seq<char>>) -> Seq<char>
    decreases lines.len(),
{
    if lines.len() == 0 {
        Seq::empty()
    } else if lines.len() == 1 {
        lines[0]
    } else {
        lines[0] + seq!['\n'] + join_newlines(lines.subrange(1, lines.len() as int))
    }
}

/// Appending a line extends the joined text by a newline and the line.
pub proof fn lemma_join_newlines_push(lines: Seq<Seq<char>>, x: Seq<char>)
    requires
        lines.len() >= 1,
    ensures
        join_newlines(lines.push(x)) == join_newlines(lines) + seq!['\n'] + x,
    decreases lines.len(),
{
    if lines.len() == 1 {
        assert(lines.push(x).subrange(1, 2) =~= seq![x]);
        assert(join_newlines(seq![x]) == x);
        assert(join_newlines(lines.push(x)) == lines.push(x)[0] + seq!['\n'] + join_newlines(
            lines.push(x).subrange(1, 2),
        ));
        assert(join_newlines(lines.push(x)) =~= lines[0] + seq!['\n'] + x);
    } else {
        let t = lines.subrange(1, lines.len() as int);
        lemma_join_newlines_push(t, x);
        assert(lines.push(x).subrange(1, lines.len() as int + 1) =~= t.push(x));
        assert(join_newlines(lines.push(x)) =~= join_newlines(lines) + seq!['\n'] + x);
    }
}

/// The decimal digit character for `d`.
pub open spec fn digit_char(d: int) -> char {
    if d == 0 {
        '0'
    } else if d == 1 {
        '1'
    } else if d == 2 {
        '2'
    } else if d == 3 {
        '3'
    } else if d == 4 {
        '4'
    } else if d == 5 {
        '5'
    } else if d == 6 {
        '6'
    } else if d == 7 {
        '7'
    } else if d == 8 {
        '8'
    } else {
        '9'
    }
}

/// The decimal rendering of a nonnegative integer.
pub open spec fn dec_str(n: int) -> Seq<char>
    decreases n,
{
    if n < 10 {
        seq![digit_char(n)]
    } else {
        dec_str(n / 10) + seq![digit_char(n % 10)]
    }
}

/// The one-character string for decimal digit `d`.
fn digit_str(d: u64) -> (r: &'static str)
    requires
        d < 10,
    ensures
        r@ == seq![digit_char(d as int)],
{
    proof {
        reveal_strlit("0");
        reveal_strlit("1");
        reveal_strlit("2");
        reveal_strlit("3");
        reveal_strlit("4");
        reveal_strlit("5");
        reveal_strlit("6");
        reveal_strlit("7");
        reveal_strlit("8");
        reveal_strlit("9");
    }
    let r = if d == 0 {
        "0"
    } else if d == 1 {
        "1"
    } else if d == 2 {
        "2"
    } else if d == 3 {
        "3"
    } else if d == 4 {
        "4"
    } else if d == 5 {
        "5"
    } else if d == 6 {
        "6"
    } else if d == 7 {
        "7"
    } else if d == 8 {
        "8"
    } else {
        "9"
    };
    proof {
        assert(r@ =~= seq![digit_char(d as int)]);
    }
    r
}

/// The decimal rendering of a nonnegative integer.
pub fn u64_to_string(n: u64) -> (r: String)
    ensures
        r@ == dec_str(n as int),
    decreases n,
{
    if n < 10 {
        digit_str(n).to_owned()
    } else {
        u64_to_string(n / 10).concat(digit_str(n % 10))
    }
}

/// The decimal rendering of a signed integer: a minus sign, then digits.
pub open spec fn dec_str_signed(n: int) -> Seq<char> {
    if n < 0 {
        seq!['-'] + dec_str(-n)
    } else {
        dec_str(n)
    }
}

/// The decimal rendering of a signed integer.
pub fn i64_to_string(n: i64) -> (r: String)
    ensures
        r@ == dec_str_signed(n as int),
{
    if n < 0 {
        let m: u64 = if n == i64::MIN {
            9223372036854775808u64
        } else {
            (-n) as u64
        };
        let r = String::from_str("-").concat(u64_to_string(m).as_str());
        proof {
            reveal_strlit("-");
            assert(r@ =~= seq!['-'] + dec_str(m as int));
        }
        r
    } else {
        u64_to_string(n as u64)
    }
}


/// The index of the last occurrence of `c` in `s`, or -1 when there is
/// none.
pub open spec fn rfind_char_pos(s: Seq<char>, c: char) -> int
    decreases s.len(),
{
    if s.len() == 0 {
        -1
    } else if s[s.len() - 1] == c {
        s.len() - 1
    } else {
        rfind_char_pos(s.subrange(0, s.len() - 1), c)
    }
}

pub proof fn lemma_rfind_char_pos(s: Seq<char>, c: char)
    ensures
        -1 <= rfind_char_pos(s, c) < s.len(),
        forall|j: int| rfind_char_pos(s, c) < j < s.len() ==> s[j] != c,
        rfind_char_pos(s, c) >= 0 ==> s[rfind_char_pos(s, c)] == c,
    decreases s.len(),
{
    if s.len() == 0 || s[s.len() - 1] == c {
    } else {
        let t = s.subrange(0, s.len() - 1);
        lemma_rfind_char_pos(t, c);
        assert forall|j: int| rfind_char_pos(s, c) < j < s.len() implies s[j] != c by {
            if j < s.len() - 1 {
                assert(t[j] == s[j]);
            }
        }
        if rfind_char_pos(s, c) >= 0 {
            assert(t[rfind_char_pos(s, c)] == s[rfind_char_pos(s, c)]);
        }
    }
}

proof fn lemma_rfind_char_pos_unique(s: Seq<char>, c: char, i: int)
    requires
        -1 <= i < s.len(),
        forall|j: int| i < j < s.len() ==> s[j] != c,
        i >= 0 ==> s[i] == c,
    ensures
        rfind_char_pos(s, c) == i,
    decreases s.len(),
{
    if s.len() == 0 {
    } else if s[s.len() - 1] == c {
        assert(i == s.len() - 1);
    } else {
        let t = s.subrange(0, s.len() - 1);
        assert(i < s.len() - 1);
        assert forall|j: int| i < j < t.len() implies t[j] != c by {
            assert(t[j] == s[j]);
        }
        if i >= 0 {
            assert(t[i] == s[i]);
        }
        lemma_rfind_char_pos_unique(t, c, i);
    }
}

/// The index just past the last occurrence of `c` in `s`, or 0 when there
/// is none (so the result is usable as a split point).
pub fn rfind_char(s: &str, c: char) -> (r: Option<usize>)
    ensures
        r matches Some(i) ==> i == rfind_char_pos(s@, c) && 0 <= i < s@.len(),
        r is None ==> rfind_char_pos(s@, c) == -1,
{
    let n = s.unicode_len();
    let mut b: usize = n;
    while b > 0 && s.get_char(b - 1) != c
        invariant
            0 <= b <= n,
            n == s@.len(),
            forall|j: int| b <= j < n ==> s@[j] != c,
        decreases b,
    {
        b = b - 1;
    }
    if b == 0 {
        proof {
            lemma_rfind_char_pos_unique(s@, c, -1);
        }
        None
    } else {
        proof {
            lemma_rfind_char_pos_unique(s@, c, b - 1);
        }
        Some(b - 1)
    }
}


/// The parts joined with `sep` between each pair.
pub open spec fn join_sep(sep: Seq<char>, parts: Seq<Seq<char>>) -> Seq<char>
    decreases parts.len(),
{
    if parts.len() == 0 {
        Seq::empty()
    } else if parts.len() == 1 {
        parts[0]
    } else {
        parts[0] + sep + join_sep(sep, parts.subrange(1, parts.len() as int))
    }
}

/// Appending a part extends the joined text by the separator and the part.
pub proof fn lemma_join_sep_push(sep: Seq<char>, parts: Seq<Seq<char>>, x: Seq<char>)
    requires
        parts.len() >= 1,
    ensures
        join_sep(sep, parts.push(x)) == join_sep(sep, parts) + sep + x,
    decreases parts.len(),
{
    if parts.len() == 1 {
        assert(parts.push(x).subrange(1, 2) =~= seq![x]);
        assert(join_sep(sep, seq![x]) == x);
        assert(join_sep(sep, parts.push(x)) == parts.push(x)[0] + sep + join_sep(
            sep,
            parts.push(x).subrange(1, 2),
        ));
        assert(join_sep(sep, parts.push(x)) =~= parts[0] + sep + x);
    } else {
        let t = parts.subrange(1, parts.len() as int);
        lemma_join_sep_push(sep, t, x);
        assert(parts.push(x).subrange(1, parts.len() as int + 1) =~= t.push(x));
        assert(join_sep(sep, parts.push(x)) =~= join_sep(sep, parts) + sep + x);
    }
}

} // verus!
