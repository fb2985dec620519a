//! Character-level text utilities: ordering, comparison, searching and building.
use vstd::prelude::*;
use vstd::string::*;

verus! {

broadcast use vstd::string::group_string_axioms;

/// Lexicographic order on character sequences; the order of `str`'s `Ord`
/// (UTF-8 byte order coincides with code-point order).
pub open spec fn seq_lt(a: Seq<char>, b: Seq<char>) -> bool
    decreases a.len(),
{
    if b.len() == 0 {
        false
    } else if a.len() == 0 {
        true
    } else if a[0] != b[0] {
        a[0] < b[0]
    } else {
        seq_lt(a.drop_first(), b.drop_first())
    }
}

pub proof fn lemma_seq_lt_irreflexive(a: Seq<char>)
    ensures
        !seq_lt(a, a),
    decreases a.len(),
{
    if a.len() > 0 {
        lemma_seq_lt_irreflexive(a.drop_first());
    }
}

pub proof fn lemma_seq_lt_transitive(a: Seq<char>, b: Seq<char>, c: Seq<char>)
    requires
        seq_lt(a, b),
        seq_lt(b, c),
    ensures
        seq_lt(a, c),
    decreases a.len(),
{
    if a.len() > 0 && b.len() > 0 && c.len() > 0 && a[0] == b[0] && b[0] == c[0] {
        lemma_seq_lt_transitive(a.drop_first(), b.drop_first(), c.drop_first());
    }
}

pub proof fn lemma_seq_lt_total(a: Seq<char>, b: Seq<char>)
    requires
        a != b,
    ensures
        seq_lt(a, b) || seq_lt(b, a),
    decreases a.len(),
{
    if a.len() == 0 {
        if b.len() == 0 {
            assert(a =~= b);
        }
    } else if b.len() == 0 {
    } else if a[0] == b[0] {
        if a.drop_first() == b.drop_first() {
            assert(a =~= seq![a[0]] + a.drop_first());
            assert(b =~= seq![b[0]] + b.drop_first());
        }
        lemma_seq_lt_total(a.drop_first(), b.drop_first());
    }
}

pub proof fn lemma_seq_lt_asymmetric(a: Seq<char>, b: Seq<char>)
    requires
        seq_lt(a, b),
    ensures
        !seq_lt(b, a),
{
    if seq_lt(b, a) {
        lemma_seq_lt_transitive(a, b, a);
        lemma_seq_lt_irreflexive(a);
    }
}

proof fn lemma_seq_lt_skip(a: Seq<char>, b: Seq<char>, i: int)
    requires
        0 <= i < a.len(),
        i < b.len(),
        a[i] == b[i],
    ensures
        seq_lt(a.skip(i), b.skip(i)) == seq_lt(a.skip(i + 1), b.skip(i + 1)),
{
    assert(a.skip(i).drop_first() =~= a.skip(i + 1));
    assert(b.skip(i).drop_first() =~= b.skip(i + 1));
}

/// The characters of `s`, in order.
pub fn chars_of(s: &str) -> (v: Vec<char>)
    ensures
        v@ == s@,
{
    let mut v: Vec<char> = Vec::new();
    for c in it: s.chars()
        invariant
            it.seq() == s@,
            v@ == it.seq().take(it.index()),
    {
        v.push(c);
    }
    v
}

/// Lexicographic comparison of two character vectors.
pub fn chars_lt(a: &Vec<char>, b: &Vec<char>) -> (r: bool)
    ensures
        r == seq_lt(a@, b@),
{
    let mut i: usize = 0;
    assert(a@.skip(0) =~= a@);
    assert(b@.skip(0) =~= b@);
    while i < a.len() && i < b.len() && a[i] == b[i]
        invariant
            i <= a.len(),
            i <= b.len(),
            seq_lt(a@, b@) == seq_lt(a@.skip(i as int), b@.skip(i as int)),
        decreases a.len() - i,
    {
        proof {
            lemma_seq_lt_skip(a@, b@, i as int);
        }
        i = i + 1;
    }
    if i == b.len() {
        false
    } else if i == a.len() {
        true
    } else {
        a[i] < b[i]
    }
}

/// Lexicographic comparison of two strings (the order of `str`'s `Ord`).
pub fn str_lt(a: &str, b: &str) -> (r: bool)
    ensures
        r == seq_lt(a@, b@),
{
    let av = chars_of(a);
    let bv = chars_of(b);
    chars_lt(&av, &bv)
}

/// Character-wise equality of two character vectors.
pub fn chars_eq(a: &Vec<char>, b: &Vec<char>) -> (r: bool)
    ensures
        r == (a@ == b@),
{
    if a.len() != b.len() {
        return false;
    }
    let mut i: usize = 0;
    while i < a.len()
        invariant
            i <= a.len(),
            a.len() == b.len(),
            forall|j: int| 0 <= j < i ==> a@[j] == b@[j],
        decreases a.len() - i,
    {
        if a[i] != b[i] {
            return false;
        }
        i = i + 1;
    }
    assert(a@ =~= b@);
    true
}

/// Equality of two string slices.
pub fn str_eq(a: &str, b: &str) -> (r: bool)
    ensures
        r == (a@ == b@),
{
    let av = chars_of(a);
    let bv = chars_of(b);
    chars_eq(&av, &bv)
}

} // verus!

verus! {

// ---------------------------------------------------------------------
// Building strings
// ---------------------------------------------------------------------

/// Appends `piece` to `out`.
pub fn push_str(out: &mut String, piece: &str)
    ensures
        final(out)@ == old(out)@ + piece@,
{
    out.append(piece);
}

/// A fresh string holding `s`.
pub fn owned(s: &str) -> (r: String)
    ensures
        r@ == s@,
{
    let mut r = String::new();
    r.append(s);
    r
}

/// The characters `from..to` of `s` as a new string.
pub fn substring(s: &str, from: usize, to: usize) -> (r: String)
    requires
        from <= to <= s@.len(),
    ensures
        r@ == s@.subrange(from as int, to as int),
{
    owned(s.substring_char(from, to))
}

pub open spec fn digit_char(d: nat) -> char {
    (48 + d) as char
}

/// Decimal notation of `n`, as `u64`'s `Display` writes it.
pub open spec fn dec(n: nat) -> Seq<char>
    decreases n,
{
    if n < 10 {
        seq![digit_char(n)]
    } else {
        dec(n / 10).push(digit_char(n % 10))
    }
}

fn digit_str(d: u64) -> (r: &'static str)
    requires
        d < 10,
    ensures
        r@ == seq![digit_char(d as nat)],
{
    let digits = "0123456789";
    proof {
        reveal_strlit("0123456789");
    }
    let r = digits.substring_char(d as usize, d as usize + 1);
    assert(r@ =~= seq![digit_char(d as nat)]);
    r
}

/// Decimal notation of `n`.
pub fn decimal(n: u64) -> (r: String)
    ensures
        r@ == dec(n as nat),
    decreases n,
{
    if n < 10 {
        owned(digit_str(n))
    } else {
        let mut r = decimal(n / 10);
        push_str(&mut r, digit_str(n % 10));
        r
    }
}

/// `parts` joined with `sep` between neighbours.
pub open spec fn join(parts: Seq<Seq<char>>, sep: Seq<char>) -> Seq<char>
    decreases parts.len(),
{
    if parts.len() == 0 {
        Seq::empty()
    } else if parts.len() == 1 {
        parts[0]
    } else {
        join(parts.drop_last(), sep) + sep + parts.last()
    }
}

/// The strings of `parts` joined with `sep`.
pub fn join_strings(parts: &Vec<String>, sep: &str) -> (r: String)
    ensures
        r@ == join(parts.deep_view(), sep@),
{
    let mut r = String::new();
    let ghost views = parts.deep_view();
    let mut i: usize = 0;
    while i < parts.len()
        invariant
            i <= parts.len(),
            views == parts.deep_view(),
            views.len() == parts.len(),
            r@ == join(views.take(i as int), sep@),
        decreases parts.len() - i,
    {
        assert(views.take(i + 1).drop_last() =~= views.take(i as int));
        if i > 0 {
            push_str(&mut r, sep);
        } else {
            assert(r@ =~= Seq::<char>::empty());
        }
        push_str(&mut r, parts[i].as_str());
        i = i + 1;
        assert(r@ =~= join(views.take(i as int), sep@));
    }
    assert(views.take(parts.len() as int) =~= views);
    r
}

// ---------------------------------------------------------------------
// Searching
// ---------------------------------------------------------------------

/// `p` occurs in `s` starting at `i`.
pub open spec fn occurs_at(s: Seq<char>, p: Seq<char>, i: int) -> bool {
    0 <= i && i + p.len() <= s.len() && s.subrange(i, i + p.len()) == p
}

/// `p` occurs somewhere in `s` (`str::contains`).
pub open spec fn contains_seq(s: Seq<char>, p: Seq<char>) -> bool {
    exists|i: int| occurs_at(s, p, i)
}

pub fn chars_occur_at(s: &Vec<char>, p: &Vec<char>, i: usize) -> (r: bool)
    ensures
        r == occurs_at(s@, p@, i as int),
{
    if i > s.len() || p.len() > s.len() - i {
        return false;
    }
    let mut j: usize = 0;
    while j < p.len()
        invariant
            j <= p.len(),
            i + p.len() <= s.len(),
            forall|k: int| 0 <= k < j ==> s@[i + k] == p@[k],
        decreases p.len() - j,
    {
        if s[i + j] != p[j] {
            assert(s@.subrange(i as int, i + p.len())[j as int] != p@[j as int]);
            return false;
        }
        j = j + 1;
    }
    assert(s@.subrange(i as int, i + p.len()) =~= p@);
    true
}

/// Whether `p` occurs in the characters `sv`.
pub fn chars_contains(sv: &Vec<char>, pv: &Vec<char>) -> (r: bool)
    ensures
        r == contains_seq(sv@, pv@),
{
    let mut i: usize = 0;
    while i < sv.len()
        invariant
            i <= sv.len(),
            forall|k: int| 0 <= k < i ==> !occurs_at(sv@, pv@, k),
        decreases sv.len() - i,
    {
        if chars_occur_at(sv, pv, i) {
            return true;
        }
        i = i + 1;
    }
    if chars_occur_at(sv, pv, i) {
        return true;
    }
    assert forall|k: int| !occurs_at(sv@, pv@, k) by {
        if 0 <= k <= i {
        }
    };
    false
}

/// Whether `p` occurs in `s`.
pub fn contains_str(s: &str, p: &str) -> (r: bool)
    ensures
        r == contains_seq(s@, p@),
{
    let sv = chars_of(s);
    let pv = chars_of(p);
    chars_contains(&sv, &pv)
}

/// Whether `p` begins `s`.
pub fn starts_with(s: &str, p: &str) -> (r: bool)
    ensures
        r == p@.is_prefix_of(s@),
{
    let sv = chars_of(s);
    let pv = chars_of(p);
    let r = chars_occur_at(&sv, &pv, 0);
    proof {
        if r {
            assert(p@ =~= s@.subrange(0, p@.len() as int));
        } else if p@.len() <= s@.len() {
            assert(!(s@.subrange(0, p@.len() as int) == p@));
        }
    }
    r
}

/// Whether `p` ends `s`.
pub fn ends_with(s: &str, p: &str) -> (r: bool)
    ensures
        r == p@.is_suffix_of(s@),
{
    let sv = chars_of(s);
    let pv = chars_of(p);
    if pv.len() > sv.len() {
        return false;
    }
    let r = chars_occur_at(&sv, &pv, sv.len() - pv.len());
    proof {
        if r {
            assert(p@ =~= s@.subrange(s@.len() - p@.len(), s@.len() as int));
        } else {
            assert(!(s@.subrange(s@.len() - p@.len(), s@.len() as int) == p@));
        }
    }
    r
}

/// Whether `c` occurs in `s`.
pub fn contains_char(s: &str, c: char) -> (r: bool)
    ensures
        r == s@.contains(c),
{
    let sv = chars_of(s);
    let mut i: usize = 0;
    while i < sv.len()
        invariant
            sv@ == s@,
            i <= sv.len(),
            forall|k: int| 0 <= k < i ==> sv@[k] != c,
        decreases sv.len() - i,
    {
        if sv[i] == c {
            return true;
        }
        i = i + 1;
    }
    false
}

/// Index of the first `c` in `s`.
pub open spec fn first_index(s: Seq<char>, c: char) -> Option<int> {
    if s.contains(c) {
        Some(choose|i: int| 0 <= i < s.len() && s[i] == c && forall|k: int| 0 <= k < i ==> s[k] != c)
    } else {
        None
    }
}

/// A character that occurs has a first occurrence.
pub proof fn lemma_first_index(s: Seq<char>, c: char)
    requires
        s.contains(c),
    ensures
        first_index(s, c) matches Some(i) && 0 <= i < s.len() && s[i] == c && forall|k: int| 0 <= k < i ==> s[k] != c,
    decreases s.len(),
{
    if s[0] == c {
        assert(forall|k: int| 0 <= k < 0 ==> s[k] != c);
    } else {
        let t = s.drop_first();
        let w = choose|w: int| 0 <= w < s.len() && s[w] == c;
        assert(t[w - 1] == c);
        lemma_first_index(t, c);
        let j = first_index(t, c)->0;
        assert(s[j + 1] == c);
        assert forall|k: int| 0 <= k < j + 1 implies s[k] != c by {
            if k > 0 {
                assert(s[k] == t[k - 1]);
            }
        };
    }
}

/// Index of the first `c` in the characters `v`.
pub fn find_char(v: &Vec<char>, c: char) -> (r: Option<usize>)
    ensures
        r matches Some(i) ==> i < v@.len() && v@[i as int] == c && forall|k: int| 0 <= k < i ==> v@[k] != c,
        r is None ==> !v@.contains(c),
        first_index(v@, c) == (match r { Some(i) => Some(i as int), None => None }),
{
    let mut i: usize = 0;
    while i < v.len()
        invariant
            i <= v.len(),
            forall|k: int| 0 <= k < i ==> v@[k] != c,
        decreases v.len() - i,
    {
        if v[i] == c {
            proof {
                assert(v@.contains(c));
                let j = choose|j: int| 0 <= j < v@.len() && v@[j] == c && forall|k: int| 0 <= k < j ==> v@[k] != c;
                assert(v@[i as int] == c);
                if j < i {
                } else if j > i {
                    assert(v@[i as int] != c);
                }
            }
            return Some(i);
        }
        i = i + 1;
    }
    None
}

/// `str::split_once(c)`: the parts before and after the first `c`.
pub open spec fn split_once(s: Seq<char>, c: char) -> Option<(Seq<char>, Seq<char>)> {
    match first_index(s, c) {
        Some(i) => Some((s.take(i), s.skip(i + 1))),
        None => None,
    }
}

/// Splits `s` at the first `c`.
pub fn split_once_char(s: &str, c: char) -> (r: Option<(String, String)>)
    ensures
        split_once(s@, c) == (match r { Some((a, b)) => Some((a@, b@)), None => None }),
{
    let v = chars_of(s);
    let found = find_char(&v, c);
    match found {
        Some(i) => {
            assert(i < v.len());
            let a = substring(s, 0, i);
            let b = substring(s, i + 1, v.len());
            assert(a@ =~= s@.take(i as int));
            assert(b@ =~= s@.skip(i + 1));
            Some((a, b))
        },
        None => None,
    }
}

} // verus!

verus! {

// ---------------------------------------------------------------------
// Case, trimming and replacing
// ---------------------------------------------------------------------

/// `char::to_ascii_uppercase`.
pub open spec fn upper(c: char) -> char {
    match c {
        'a' => 'A',
        'b' => 'B',
        'c' => 'C',
        'd' => 'D',
        'e' => 'E',
        'f' => 'F',
        'g' => 'G',
        'h' => 'H',
        'i' => 'I',
        'j' => 'J',
        'k' => 'K',
        'l' => 'L',
        'm' => 'M',
        'n' => 'N',
        'o' => 'O',
        'p' => 'P',
        'q' => 'Q',
        'r' => 'R',
        's' => 'S',
        't' => 'T',
        'u' => 'U',
        'v' => 'V',
        'w' => 'W',
        'x' => 'X',
        'y' => 'Y',
        'z' => 'Z',
        _ => c,
    }
}

/// `str::to_ascii_uppercase`.
pub open spec fn ascii_upper(s: Seq<char>) -> Seq<char> {
    s.map_values(|c: char| upper(c))
}

/// `c.to_ascii_uppercase()`.
pub fn upper_char(c: char) -> (u: char)
    ensures
        u == upper(c),
{
    match c {
        'a' => 'A',
        'b' => 'B',
        'c' => 'C',
        'd' => 'D',
        'e' => 'E',
        'f' => 'F',
        'g' => 'G',
        'h' => 'H',
        'i' => 'I',
        'j' => 'J',
        'k' => 'K',
        'l' => 'L',
        'm' => 'M',
        'n' => 'N',
        'o' => 'O',
        'p' => 'P',
        'q' => 'Q',
        'r' => 'R',
        's' => 'S',
        't' => 'T',
        'u' => 'U',
        'v' => 'V',
        'w' => 'W',
        'x' => 'X',
        'y' => 'Y',
        'z' => 'Z',
        _ => c,
    }
}

/// Whether the ASCII upper-casing of `s` is `lit`.
pub fn upper_eq(s: &str, lit: &str) -> (r: bool)
    ensures
        r == (ascii_upper(s@) == lit@),
{
    let sv = chars_of(s);
    let lv = chars_of(lit);
    if sv.len() != lv.len() {
        assert(ascii_upper(s@).len() != lit@.len());
        return false;
    }
    let mut i: usize = 0;
    while i < sv.len()
        invariant
            sv@ == s@,
            lv@ == lit@,
            sv.len() == lv.len(),
            i <= sv.len(),
            forall|k: int| 0 <= k < i ==> upper(s@[k]) == lit@[k],
        decreases sv.len() - i,
    {
        if upper_char(sv[i]) != lv[i] {
            assert(ascii_upper(s@)[i as int] != lit@[i as int]);
            return false;
        }
        i = i + 1;
    }
    assert(ascii_upper(s@) =~= lit@);
    true
}

/// `s` without its leading `c`s (`str::trim_start_matches(c)`).
pub open spec fn trim_start_char(s: Seq<char>, c: char) -> Seq<char>
    decreases s.len(),
{
    if s.len() > 0 && s[0] == c {
        trim_start_char(s.drop_first(), c)
    } else {
        s
    }
}

/// `s` without its trailing `c`s (`str::trim_end_matches(c)`).
pub open spec fn trim_end_char(s: Seq<char>, c: char) -> Seq<char>
    decreases s.len(),
{
    if s.len() > 0 && s.last() == c {
        trim_end_char(s.drop_last(), c)
    } else {
        s
    }
}

/// `s` without its leading copies of the non-empty `p`
/// (`str::trim_start_matches(p)`).
pub open spec fn trim_start_seq(s: Seq<char>, p: Seq<char>) -> Seq<char>
    decreases s.len(),
{
    if p.len() > 0 && p.is_prefix_of(s) {
        trim_start_seq(s.skip(p.len() as int), p)
    } else {
        s
    }
}

/// Number of leading `c`s of `v` from `from` on.
fn count_leading(v: &Vec<char>, from: usize, c: char) -> (n: usize)
    requires
        from <= v@.len(),
    ensures
        from + n <= v@.len(),
        trim_start_char(v@.skip(from as int), c) == v@.skip(from + n),
    decreases v.len() - from,
{
    if from < v.len() && v[from] == c {
        assert(v@.skip(from as int).drop_first() =~= v@.skip(from + 1));
        1 + count_leading(v, from + 1, c)
    } else {
        0
    }
}

/// `s.trim_start_matches(c)`.
pub fn trim_start_matches_char(s: &str, c: char) -> (r: String)
    ensures
        r@ == trim_start_char(s@, c),
{
    let v = chars_of(s);
    assert(v@.skip(0) =~= v@);
    let n = count_leading(&v, 0, c);
    let r = substring(s, n, v.len());
    assert(r@ =~= v@.skip(n as int));
    r
}

/// `s` with every `c` replaced by `by`.
pub open spec fn replace_char(s: Seq<char>, c: char, by: Seq<char>) -> Seq<char>
    decreases s.len(),
{
    if s.len() == 0 {
        s
    } else {
        replace_char(s.drop_last(), c, by) + (if s.last() == c { by } else { seq![s.last()] })
    }
}

/// `s.replace(c, by)`.
pub fn replace_char_with(s: &str, c: char, by: &str) -> (r: String)
    ensures
        r@ == replace_char(s@, c, by@),
{
    let v = chars_of(s);
    let mut r = String::new();
    let mut start: usize = 0;
    let mut i: usize = 0;
    assert(v@.take(0) =~= Seq::<char>::empty());
    while i < v.len()
        invariant
            v@ == s@,
            start <= i <= v.len(),
            r@ + v@.subrange(start as int, i as int) == replace_char(v@.take(i as int), c, by@),
            forall|k: int| start <= k < i ==> v@[k] != c,
        decreases v.len() - i,
    {
        assert(v@.take(i + 1).drop_last() =~= v@.take(i as int));
        if v[i] == c {
            let piece = substring(s, start, i);
            push_str(&mut r, piece.as_str());
            push_str(&mut r, by);
            start = i + 1;
            i = i + 1;
            assert(v@.subrange(start as int, i as int) =~= Seq::<char>::empty());
            assert(r@ + v@.subrange(start as int, i as int) =~= replace_char(v@.take(i as int), c, by@));
        } else {
            i = i + 1;
            assert(v@.subrange(start as int, i as int) =~= v@.subrange(start as int, i - 1).push(v@[i - 1]));
            assert(r@ + v@.subrange(start as int, i as int) =~= replace_char(v@.take(i as int), c, by@));
        }
    }
    let rest = substring(s, start, v.len());
    push_str(&mut r, rest.as_str());
    assert(v@.take(v.len() as int) =~= v@);
    r
}

/// The part of `s` after its last `/` (`s.rsplit('/').next()`).
pub open spec fn last_segment(s: Seq<char>) -> Seq<char>
    decreases s.len(),
{
    if s.len() == 0 {
        s
    } else if s.last() == '/' {
        Seq::empty()
    } else {
        last_segment(s.drop_last()).push(s.last())
    }
}

/// Index where the last `/`-separated segment of `v.take(to)` starts.
fn segment_start(v: &Vec<char>, to: usize) -> (i: usize)
    requires
        to <= v@.len(),
    ensures
        i <= to,
        last_segment(v@.take(to as int)) == v@.subrange(i as int, to as int),
    decreases to,
{
    if to == 0 {
        assert(v@.take(0) =~= v@.subrange(0, 0));
        0
    } else if v[to - 1] == '/' {
        assert(v@.take(to as int).last() == '/');
        assert(v@.subrange(to as int, to as int) =~= Seq::<char>::empty());
        to
    } else {
        let i = segment_start(v, to - 1);
        assert(v@.take(to as int).drop_last() =~= v@.take(to - 1));
        assert(v@.subrange(i as int, to as int) =~= v@.subrange(i as int, to - 1).push(v@[to - 1]));
        i
    }
}

/// The last `/`-separated segment of `s`.
pub fn last_path_segment(s: &str) -> (r: String)
    ensures
        r@ == last_segment(s@),
{
    let v = chars_of(s);
    let i = segment_start(&v, v.len());
    assert(v@.take(v.len() as int) =~= v@);
    substring(s, i, v.len())
}

} // verus!

verus! {

// ---------------------------------------------------------------------
// Splitting
// ---------------------------------------------------------------------

/// `char::is_whitespace`: the Unicode `White_Space` property.
pub open spec fn is_ws(c: char) -> bool {
    ||| '\u{9}' <= c && c <= '\u{d}'
    ||| c == ' '
    ||| c == '\u{85}'
    ||| c == '\u{a0}'
    ||| c == '\u{1680}'
    ||| '\u{2000}' <= c && c <= '\u{200a}'
    ||| c == '\u{2028}'
    ||| c == '\u{2029}'
    ||| c == '\u{202f}'
    ||| c == '\u{205f}'
    ||| c == '\u{3000}'
}

pub fn is_whitespace(c: char) -> (r: bool)
    ensures
        r == is_ws(c),
{
    ('\u{9}' <= c && c <= '\u{d}') || c == ' ' || c == '\u{85}' || c == '\u{a0}' || c == '\u{1680}'
        || ('\u{2000}' <= c && c <= '\u{200a}') || c == '\u{2028}' || c == '\u{2029}' || c == '\u{202f}'
        || c == '\u{205f}' || c == '\u{3000}'
}

/// The maximal non-empty runs of non-whitespace characters of `s`, in order
/// (`str::split_whitespace`).
pub open spec fn words(s: Seq<char>) -> Seq<Seq<char>>
    decreases s.len(),
{
    if s.len() == 0 {
        Seq::empty()
    } else {
        let rest = words(s.drop_last());
        if is_ws(s.last()) {
            rest
        } else if s.len() >= 2 && !is_ws(s[s.len() - 2]) {
            rest.drop_last().push(rest.last().push(s.last()))
        } else {
            rest.push(seq![s.last()])
        }
    }
}

/// A word: at least one character, none of them whitespace.
pub open spec fn is_word(w: Seq<char>) -> bool {
    w.len() > 0 && forall|k: int| 0 <= k < w.len() ==> !is_ws(#[trigger] w[k])
}

/// Every word that `words` finds is a word.
pub proof fn lemma_words_are_words(s: Seq<char>)
    ensures
        forall|i: int| 0 <= i < words(s).len() ==> is_word(#[trigger] words(s)[i]),
    decreases s.len(),
{
    if s.len() > 0 {
        let t = s.drop_last();
        lemma_words_are_words(t);
        let rest = words(t);
        if !is_ws(s.last()) && s.len() >= 2 && !is_ws(s[s.len() - 2]) {
            assert(t.len() > 0 && t.last() == s[s.len() - 2]);
            assert(t.drop_last().len() == t.len() - 1);
            assert(rest.len() > 0);
            let w = rest.last();
            assert(is_word(rest[rest.len() - 1]));
            assert forall|k: int| 0 <= k < w.push(s.last()).len() implies !is_ws(#[trigger] w.push(s.last())[k]) by {
                if k < w.len() {
                    assert(w.push(s.last())[k] == w[k]);
                }
            };
            let r = rest.drop_last().push(w.push(s.last()));
            assert forall|i: int| 0 <= i < r.len() implies is_word(#[trigger] r[i]) by {
                if i < r.len() - 1 {
                    assert(r[i] == rest[i]);
                }
            };
        } else if !is_ws(s.last()) {
            let r = rest.push(seq![s.last()]);
            assert forall|i: int| 0 <= i < r.len() implies is_word(#[trigger] r[i]) by {
                if i < r.len() - 1 {
                    assert(r[i] == rest[i]);
                }
            };
        }
    }
}

/// After nothing or whitespace, a word adds itself to the words.
proof fn lemma_words_append_word(s: Seq<char>, w: Seq<char>)
    requires
        s.len() == 0 || is_ws(s.last()),
        is_word(w),
    ensures
        words(s + w) == words(s).push(w),
    decreases w.len(),
{
    if w.len() == 1 {
        assert((s + w).drop_last() =~= s);
        assert((s + w).last() == w[0]);
        assert(w =~= seq![w[0]]);
    } else {
        let v = w.drop_last();
        assert forall|k: int| 0 <= k < v.len() implies !is_ws(#[trigger] v[k]) by {
            assert(v[k] == w[k]);
        };
        lemma_words_append_word(s, v);
        let sw = s + w;
        assert(sw.drop_last() =~= s + v);
        assert(sw.last() == w.last());
        assert(sw[sw.len() - 2] == v.last());
        assert(!is_ws(w[w.len() - 1]));
        assert(!is_ws(v[v.len() - 1]));
        let rest = words(s + v);
        assert(rest.drop_last() =~= words(s));
        assert(rest.last() == v);
        assert(v.push(w.last()) =~= w);
    }
}

/// Words joined by single spaces split back into the same words.
pub proof fn lemma_words_of_join(parts: Seq<Seq<char>>)
    requires
        forall|i: int| 0 <= i < parts.len() ==> is_word(#[trigger] parts[i]),
    ensures
        words(join(parts, " "@)) == parts,
    decreases parts.len(),
{
    reveal_strlit(" ");
    if parts.len() == 0 {
        assert(words(Seq::<char>::empty()) =~= parts);
    } else if parts.len() == 1 {
        assert(is_word(parts[0]));
        lemma_words_append_word(Seq::empty(), parts[0]);
        assert(Seq::<char>::empty() + parts[0] =~= parts[0]);
        assert(words(Seq::<char>::empty()).push(parts[0]) =~= parts);
    } else {
        let init = parts.drop_last();
        assert forall|i: int| 0 <= i < init.len() implies is_word(#[trigger] init[i]) by {
            assert(init[i] == parts[i]);
        };
        lemma_words_of_join(init);
        let front = join(init, " "@) + " "@;
        assert(front.drop_last() =~= join(init, " "@));
        assert(front.last() == ' ');
        assert(words(front) == words(join(init, " "@)));
        assert(is_word(parts[parts.len() - 1]));
        lemma_words_append_word(front, parts.last());
        assert(init.push(parts.last()) =~= parts);
    }
}

/// The words of `s`.
pub fn split_whitespace(s: &str) -> (r: Vec<String>)
    ensures
        r.deep_view() == words(s@),
{
    let v = chars_of(s);
    let mut out: Vec<String> = Vec::new();
    let mut start: usize = 0;
    let mut in_word = false;
    let mut i: usize = 0;
    assert(v@.take(0) =~= Seq::<char>::empty());
    while i < v.len()
        invariant
            v@ == s@,
            i <= v.len(),
            start <= i,
            in_word == (i > 0 && !is_ws(v@[i - 1])),
            in_word ==> start < i,
            !in_word ==> out.deep_view() == words(v@.take(i as int)),
            in_word ==> out.deep_view().push(v@.subrange(start as int, i as int)) == words(v@.take(i as int)),
            in_word ==> (start == 0 || is_ws(v@[start - 1])),
        decreases v.len() - i,
    {
        let ghost pre = v@.take(i as int);
        assert(v@.take(i + 1).drop_last() =~= pre);
        let c = v[i];
        if is_whitespace(c) {
            if in_word {
                let w = substring(s, start, i);
                let ghost before = out.deep_view();
                out.push(w);
                assert(out.deep_view() =~= before.push(w@));
            }
            in_word = false;
            i = i + 1;
            assert(out.deep_view() =~= words(v@.take(i as int)));
        } else {
            if !in_word {
                start = i;
                in_word = true;
                i = i + 1;
                assert(v@.subrange(start as int, i as int) =~= seq![c]);
                assert(out.deep_view().push(v@.subrange(start as int, i as int)) =~= words(v@.take(i as int)));
            } else {
                i = i + 1;
                let ghost prev = out.deep_view().push(v@.subrange(start as int, i - 1));
                assert(v@.take(i as int)[i - 2] == v@[i - 2]);
                assert(v@.subrange(start as int, i as int) =~= v@.subrange(start as int, i - 1).push(c));
                assert(prev.drop_last() =~= out.deep_view());
                assert(out.deep_view().push(v@.subrange(start as int, i as int)) =~= words(v@.take(i as int)));
            }
        }
    }
    if in_word {
        let w = substring(s, start, v.len());
        out.push(w);
    }
    assert(v@.take(v.len() as int) =~= v@);
    assert(out.deep_view() =~= words(s@));
    out
}

/// The `\n`-terminated pieces of `s`, each keeping its `\n`; the last piece
/// lacks one when `s` does not end with `\n` (`str::split_inclusive('\n')`).
pub open spec fn nl_pieces(s: Seq<char>) -> Seq<Seq<char>>
    decreases s.len(),
{
    if s.len() == 0 {
        Seq::empty()
    } else {
        let rest = nl_pieces(s.drop_last());
        if rest.len() > 0 && rest.last().len() > 0 && rest.last().last() != '\n' {
            rest.drop_last().push(rest.last().push(s.last()))
        } else {
            rest.push(seq![s.last()])
        }
    }
}

/// A piece without its line terminator (`\n` or `\r\n`).
pub open spec fn line_of(piece: Seq<char>) -> Seq<char> {
    if piece.len() > 0 && piece.last() == '\n' {
        let p = piece.drop_last();
        if p.len() > 0 && p.last() == '\r' {
            p.drop_last()
        } else {
            p
        }
    } else {
        piece
    }
}

/// Each piece without its line terminator.
pub open spec fn lines_of(pieces: Seq<Seq<char>>) -> Seq<Seq<char>> {
    pieces.map_values(|p: Seq<char>| line_of(p))
}

/// `str::lines`.
pub open spec fn lines(s: Seq<char>) -> Seq<Seq<char>> {
    lines_of(nl_pieces(s))
}

/// The lines of `s`.
pub fn split_lines(s: &str) -> (r: Vec<String>)
    ensures
        r.deep_view() == lines(s@),
{
    let v = chars_of(s);
    let mut out: Vec<String> = Vec::new();
    let mut start: usize = 0;
    let mut i: usize = 0;
    let ghost mut done: Seq<Seq<char>> = Seq::empty();
    assert(v@.take(0) =~= Seq::<char>::empty());
    while i < v.len()
        invariant
            v@ == s@,
            start <= i <= v.len(),
            forall|k: int| 0 <= k < done.len() ==> #[trigger] done[k].len() > 0 && done[k].last() == '\n',
            forall|k: int| start <= k < i ==> v@[k] != '\n',
            nl_pieces(v@.take(i as int)) == (if start < i { done.push(v@.subrange(start as int, i as int)) } else { done }),
            out.deep_view() == lines_of(done),
        decreases v.len() - i,
    {
        assert(v@.take(i + 1).drop_last() =~= v@.take(i as int));
        let c = v[i];
        let ghost piece = v@.subrange(start as int, i + 1);
        if c == '\n' {
            let end = if i > start && v[i - 1] == '\r' { i - 1 } else { i };
            let line = substring(s, start, end);
            assert(line@ =~= line_of(piece));
            let ghost before = out.deep_view();
            out.push(line);
            assert(out.deep_view() =~= before.push(line@));
            proof {
                if start < i {
                    assert(piece =~= v@.subrange(start as int, i as int).push(c));
                } else {
                    assert(piece =~= seq![c]);
                }
                assert(nl_pieces(v@.take(i + 1)) =~= done.push(piece));
                assert(lines_of(done.push(piece)) =~= lines_of(done).push(line_of(piece)));
                done = done.push(piece);
            }
            start = i + 1;
            i = i + 1;
        } else {
            proof {
                if start < i {
                    assert(piece =~= v@.subrange(start as int, i as int).push(c));
                } else {
                    assert(piece =~= seq![c]);
                }
                assert(nl_pieces(v@.take(i + 1)) =~= done.push(piece));
            }
            i = i + 1;
        }
    }
    if start < v.len() {
        let line = substring(s, start, v.len());
        let ghost before = out.deep_view();
        out.push(line);
        proof {
            let piece = v@.subrange(start as int, v.len() as int);
            assert(line_of(piece) == piece);
            assert(out.deep_view() =~= before.push(line@));
            assert(lines_of(done.push(piece)) =~= lines_of(done).push(line_of(piece)));
            done = done.push(piece);
        }
    }
    assert(v@.take(v.len() as int) =~= v@);
    assert(out.deep_view() =~= lines(s@));
    out
}

// ---------------------------------------------------------------------
// Numbers
// ---------------------------------------------------------------------

pub open spec fn is_digit(c: char) -> bool {
    '0' <= c && c <= '9'
}

/// Value of the decimal digits `s`.
pub open spec fn digits_value(s: Seq<char>) -> nat
    decreases s.len(),
{
    if s.len() == 0 {
        0
    } else {
        digits_value(s.drop_last()) * 10 + ((s.last() as int) - 48) as nat
    }
}

/// `u64::from_str`: an optional `+` and then one or more ASCII digits whose
/// value fits in `u64`.
pub open spec fn parse_u64(s: Seq<char>) -> Option<u64> {
    let d = unsigned_digits(s);
    if d.len() > 0 && all_digits(d) && digits_value(d) <= u64::MAX {
        Some(digits_value(d) as u64)
    } else {
        None
    }
}

/// `s` without one leading `+`.
pub open spec fn unsigned_digits(s: Seq<char>) -> Seq<char> {
    if s.len() > 0 && s[0] == '+' {
        s.drop_first()
    } else {
        s
    }
}

pub open spec fn all_digits(d: Seq<char>) -> bool {
    forall|i: int| 0 <= i < d.len() ==> is_digit(#[trigger] d[i])
}

fn digit_value(c: char) -> (d: u64)
    requires
        is_digit(c),
    ensures
        d as int == (c as int) - 48,
{
    match c {
        '0' => 0,
        '1' => 1,
        '2' => 2,
        '3' => 3,
        '4' => 4,
        '5' => 5,
        '6' => 6,
        '7' => 7,
        '8' => 8,
        _ => 9,
    }
}

proof fn lemma_digits_value_monotone(s: Seq<char>, i: int)
    requires
        0 <= i <= s.len(),
        forall|k: int| 0 <= k < s.len() ==> is_digit(#[trigger] s[k]),
    ensures
        digits_value(s.take(i)) <= digits_value(s),
    decreases s.len() - i,
{
    if i < s.len() {
        lemma_digits_value_monotone(s, i + 1);
        assert(s.take(i + 1).drop_last() =~= s.take(i));
    } else {
        assert(s.take(i) =~= s);
    }
}

/// Parses a decimal `u64` as `u64::from_str` does.
pub fn parse_decimal(s: &str) -> (r: Option<u64>)
    ensures
        r == parse_u64(s@),
{
    let v = chars_of(s);
    let mut i: usize = 0;
    if v.len() > 0 && v[0] == '+' {
        i = 1;
    }
    let ghost d = unsigned_digits(s@);
    assert(d =~= v@.skip(i as int));
    if i == v.len() {
        return None;
    }
    let mut value: u64 = 0;
    let start = i;
    while i < v.len()
        invariant
            v@ == s@,
            d == v@.skip(start as int),
            d == unsigned_digits(s@),
            start <= i <= v.len(),
            forall|k: int| start <= k < i ==> is_digit(#[trigger] v@[k]),
            value as nat == digits_value(v@.subrange(start as int, i as int)),
        decreases v.len() - i,
    {
        let c = v[i];
        if !(c >= '0' && c <= '9') {
            assert(!is_digit(d[i - start]));
            assert(!all_digits(d));
            assert(parse_u64(s@) is None);
            return None;
        }
        let dv = digit_value(c);
        assert(v@.subrange(start as int, i + 1).drop_last() =~= v@.subrange(start as int, i as int));
        if value > (u64::MAX - dv) / 10 {
            proof {
                assert(digits_value(v@.subrange(start as int, i + 1)) > u64::MAX);
                if all_digits(d) {
                    lemma_digits_value_monotone(d, i + 1 - start);
                    assert(d.take(i + 1 - start) =~= v@.subrange(start as int, i + 1));
                    assert(digits_value(d) > u64::MAX);
                }
                assert(parse_u64(s@) is None);
            }
            return None;
        }
        value = value * 10 + dv;
        i = i + 1;
    }
    assert(v@.subrange(start as int, v.len() as int) =~= d);
    Some(value)
}

// ---------------------------------------------------------------------
// UTF-8 widths
// ---------------------------------------------------------------------

/// Bytes that `c` takes in UTF-8 (`char::len_utf8`).
pub open spec fn utf8_width(c: char) -> nat {
    if c <= '\u{7f}' {
        1
    } else if c <= '\u{7ff}' {
        2
    } else if c <= '\u{ffff}' {
        3
    } else {
        4
    }
}

/// Bytes that `s` takes in UTF-8.
pub open spec fn utf8_len(s: Seq<char>) -> nat
    decreases s.len(),
{
    if s.len() == 0 {
        0
    } else {
        utf8_len(s.drop_last()) + utf8_width(s.last())
    }
}

/// `str::get(..n)`: the leading characters that take exactly `n` bytes, when
/// byte `n` is a character boundary.
pub open spec fn byte_prefix(s: Seq<char>, n: nat) -> Option<Seq<char>> {
    if exists|k: int| 0 <= k <= s.len() && utf8_len(#[trigger] s.take(k)) == n {
        Some(s.take(choose|k: int| 0 <= k <= s.len() && utf8_len(#[trigger] s.take(k)) == n))
    } else {
        None
    }
}

proof fn lemma_utf8_len_strict(s: Seq<char>, i: int, j: int)
    requires
        0 <= i < j <= s.len(),
    ensures
        utf8_len(s.take(i)) < utf8_len(s.take(j)),
    decreases j - i,
{
    assert(s.take(j).drop_last() =~= s.take(j - 1));
    if i < j - 1 {
        lemma_utf8_len_strict(s, i, j - 1);
    }
}

fn char_width(c: char) -> (w: usize)
    ensures
        w == utf8_width(c),
{
    if c <= '\u{7f}' {
        1
    } else if c <= '\u{7ff}' {
        2
    } else if c <= '\u{ffff}' {
        3
    } else {
        4
    }
}

/// The characters of `s` that take exactly `n` bytes, if any.
pub fn prefix_of_bytes(s: &str, n: usize) -> (r: Option<String>)
    ensures
        byte_prefix(s@, n as nat) == (match r { Some(p) => Some(p@), None => None }),
{
    let v = chars_of(s);
    let mut k: usize = 0;
    let mut bytes: usize = 0;
    assert(v@.take(0) =~= Seq::<char>::empty());
    while k < v.len() && bytes < n
        invariant
            v@ == s@,
            k <= v.len(),
            bytes == utf8_len(v@.take(k as int)),
            bytes <= n,
        decreases v.len() - k,
    {
        assert(v@.take(k + 1).drop_last() =~= v@.take(k as int));
        let w = char_width(v[k]);
        if w > n - bytes {
            proof {
                assert forall|j: int| 0 <= j <= s@.len() implies utf8_len(#[trigger] s@.take(j)) != n by {
                    if j <= k {
                        if j < k {
                            lemma_utf8_len_strict(s@, j, k as int);
                        }
                    } else {
                        if j > k + 1 {
                            lemma_utf8_len_strict(s@, k + 1, j);
                        }
                    }
                };
            }
            return None;
        }
        bytes = bytes + w;
        k = k + 1;
    }
    if bytes == n {
        let p = substring(s, 0, k);
        proof {
            let kk = choose|j: int| 0 <= j <= s@.len() && utf8_len(#[trigger] s@.take(j)) == n;
            if kk < k {
                lemma_utf8_len_strict(s@, kk, k as int);
            } else if kk > k {
                lemma_utf8_len_strict(s@, k as int, kk);
            }
            assert(p@ =~= s@.take(k as int));
        }
        Some(p)
    } else {
        proof {
            assert(k == v.len());
            assert(v@.take(k as int) =~= s@);
            assert forall|j: int| 0 <= j <= s@.len() implies utf8_len(#[trigger] s@.take(j)) != n by {
                if j < k {
                    lemma_utf8_len_strict(s@, j, k as int);
                }
                assert(s@.take(k as int) =~= s@);
            };
        }
        None
    }
}

} // verus!

verus! {

/// `s` up to its first `c` (`s.split(c).next()`).
pub open spec fn before_first(s: Seq<char>, c: char) -> Seq<char> {
    match first_index(s, c) {
        Some(i) => s.take(i),
        None => s,
    }
}

pub fn before_first_char(s: &str, c: char) -> (r: String)
    ensures
        r@ == before_first(s@, c),
{
    let v = chars_of(s);
    let found = find_char(&v, c);
    match found {
        Some(i) => {
            let r = substring(s, 0, i);
            assert(r@ =~= s@.take(i as int));
            r
        },
        None => owned(s),
    }
}

/// `s.trim_end_matches(c)`.
pub fn trim_end_matches_char(s: &str, c: char) -> (r: String)
    ensures
        r@ == trim_end_char(s@, c),
{
    let v = chars_of(s);
    let mut n: usize = v.len();
    assert(v@.take(n as int) =~= v@);
    while n > 0 && v[n - 1] == c
        invariant
            v@ == s@,
            n <= v.len(),
            trim_end_char(s@, c) == trim_end_char(v@.take(n as int), c),
        decreases n,
    {
        assert(v@.take(n as int).drop_last() =~= v@.take(n - 1));
        n = n - 1;
    }
    let r = substring(s, 0, n);
    assert(r@ =~= v@.take(n as int));
    r
}

/// `s.trim_start_matches(p)`.
pub fn trim_start_matches_str(s: &str, p: &str) -> (r: String)
    ensures
        r@ == trim_start_seq(s@, p@),
{
    let v = chars_of(s);
    let pv = chars_of(p);
    let mut i: usize = 0;
    assert(v@.skip(0) =~= v@);
    while pv.len() > 0 && i <= v.len() && chars_occur_at(&v, &pv, i)
        invariant
            v@ == s@,
            pv@ == p@,
            i <= v.len(),
            trim_start_seq(s@, p@) == trim_start_seq(v@.skip(i as int), p@),
        decreases v.len() - i,
    {
        assert(p@ =~= v@.skip(i as int).subrange(0, p@.len() as int));
        assert(v@.skip(i as int).skip(p@.len() as int) =~= v@.skip(i + pv.len()));
        i = i + pv.len();
    }
    proof {
        if pv.len() > 0 {
            if p@.is_prefix_of(v@.skip(i as int)) {
                assert(v@.subrange(i as int, i + p@.len()) =~= v@.skip(i as int).subrange(0, p@.len() as int));
            }
        }
    }
    let r = substring(s, i, v.len());
    assert(r@ =~= v@.skip(i as int));
    r
}

/// `s` without leading whitespace.
pub open spec fn trim_ws_start(s: Seq<char>) -> Seq<char>
    decreases s.len(),
{
    if s.len() > 0 && is_ws(s[0]) {
        trim_ws_start(s.drop_first())
    } else {
        s
    }
}

/// `s` without trailing whitespace.
pub open spec fn trim_ws_end(s: Seq<char>) -> Seq<char>
    decreases s.len(),
{
    if s.len() > 0 && is_ws(s.last()) {
        trim_ws_end(s.drop_last())
    } else {
        s
    }
}

/// `s` without leading and trailing whitespace (`str::trim`).
pub open spec fn trim_ws(s: Seq<char>) -> Seq<char> {
    trim_ws_end(trim_ws_start(s))
}

/// `s.trim()`.
pub fn trim_whitespace(s: &str) -> (r: String)
    ensures
        r@ == trim_ws(s@),
{
    let v = chars_of(s);
    let mut from: usize = 0;
    assert(v@.skip(0) =~= v@);
    while from < v.len() && is_whitespace(v[from])
        invariant
            v@ == s@,
            from <= v.len(),
            trim_ws_start(s@) == trim_ws_start(v@.skip(from as int)),
        decreases v.len() - from,
    {
        assert(v@.skip(from as int).drop_first() =~= v@.skip(from + 1));
        from = from + 1;
    }
    let mut to: usize = v.len();
    let ghost start = v@.skip(from as int);
    assert(start.take(start.len() as int) =~= start);
    while to > from && is_whitespace(v[to - 1])
        invariant
            v@ == s@,
            from <= to <= v.len(),
            start == v@.skip(from as int),
            trim_ws_end(start) == trim_ws_end(v@.subrange(from as int, to as int)),
        decreases to,
    {
        assert(v@.subrange(from as int, to as int).drop_last() =~= v@.subrange(from as int, to - 1));
        to = to - 1;
    }
    proof {
        if !(from < v.len() && is_ws(v@[from as int])) {
            assert(trim_ws_start(v@.skip(from as int)) == v@.skip(from as int));
        }
    }
    let r = substring(s, from, to);
    assert(r@ =~= v@.subrange(from as int, to as int));
    r
}

} // verus!
