//! Character-level text handling. A string is viewed as its `Seq<char>`;
//! the functions here work on `Vec<char>` and are proved against the
//! spec functions that say what `str::trim`, `str::split`,
//! `str::split_whitespace` and `str::lines` compute.
use vstd::prelude::*;

verus! {

/// The characters of `s`, in order.
pub fn chars_of(s: &str) -> (out: Vec<char>)
    ensures
        out@ == s@,
{
    let mut out: Vec<char> = Vec::new();
    for c in it: s.chars()
        invariant
            out@ == it.seq().take(it.index() as int),
            it.seq() == s@,
    {
        out.push(c);
    }
    out
}

/// Collects characters into a `String` (std's `FromIterator<char> for String`):
/// the string holds exactly these characters, in order.
#[verifier::external_body]
pub fn string_of(cs: &[char]) -> (out: String)
    ensures
        out@ == cs@,
{
    cs.iter().collect()
}

/// The characters of `s`, as a `Vec`.
pub fn string_chars(s: &String) -> (out: Vec<char>)
    ensures
        out@ == s@,
{
    chars_of(s.as_str())
}

/// Appends the characters of `lit` to `out`.
pub fn push_str(out: &mut Vec<char>, lit: &str)
    ensures
        final(out)@ == old(out)@ + lit@,
{
    let cs = chars_of(lit);
    let mut i: usize = 0;
    while i < cs.len()
        invariant
            i <= cs@.len(),
            cs@ == lit@,
            out@ == old(out)@ + cs@.take(i as int),
        decreases cs@.len() - i,
    {
        out.push(cs[i]);
        i = i + 1;
        assert(out@ =~= old(out)@ + cs@.take(i as int));
    }
    assert(cs@.take(i as int) =~= cs@);
}

/// Appends `more` to `out`.
pub fn push_chars(out: &mut Vec<char>, more: &[char])
    ensures
        final(out)@ == old(out)@ + more@,
{
    let mut i: usize = 0;
    while i < more.len()
        invariant
            i <= more@.len(),
            out@ == old(out)@ + more@.take(i as int),
        decreases more@.len() - i,
    {
        out.push(more[i]);
        i = i + 1;
        assert(out@ =~= old(out)@ + more@.take(i as int));
    }
    assert(more@.take(i as int) =~= more@);
}

/// A string made of `a`, then `b`, then `c`.
pub fn concat3(a: &str, b: &[char], c: &str) -> (r: String)
    ensures
        r@ == a@ + b@ + c@,
{
    let mut out: Vec<char> = Vec::new();
    push_str(&mut out, a);
    push_chars(&mut out, b);
    push_str(&mut out, c);
    string_of(out.as_slice())
}

/// Unicode `White_Space`, the property that `char::is_whitespace` tests.
pub open spec fn is_space(c: char) -> bool {
    let x = c as int;
    ||| 0x9 <= x <= 0xD
    ||| x == 0x20
    ||| x == 0x85
    ||| x == 0xA0
    ||| x == 0x1680
    ||| 0x2000 <= x <= 0x200A
    ||| x == 0x2028
    ||| x == 0x2029
    ||| x == 0x202F
    ||| x == 0x205F
    ||| x == 0x3000
}

/// Whether `c` is white space in the sense of `is_space`.
pub fn is_whitespace(c: char) -> (b: bool)
    ensures
        b == is_space(c),
{
    let x: u32 = c as u32;
    (0x9 <= x && x <= 0xD) || x == 0x20 || x == 0x85 || x == 0xA0 || x == 0x1680 || (0x2000
        <= x && x <= 0x200A) || x == 0x2028 || x == 0x2029 || x == 0x202F || x == 0x205F || x
        == 0x3000
}

/// `s` without its leading white space.
pub open spec fn trim_start(s: Seq<char>) -> Seq<char>
    decreases s.len(),
{
    if s.len() > 0 && is_space(s[0]) {
        trim_start(s.drop_first())
    } else {
        s
    }
}

/// `s` without its trailing white space.
pub open spec fn trim_end(s: Seq<char>) -> Seq<char>
    decreases s.len(),
{
    if s.len() > 0 && is_space(s.last()) {
        trim_end(s.drop_last())
    } else {
        s
    }
}

/// `s` without leading and trailing white space, as `str::trim` gives it.
pub open spec fn trim(s: Seq<char>) -> Seq<char> {
    trim_end(trim_start(s))
}

/// A copy of `s[from..to]`.
pub fn copy_range(s: &[char], from: usize, to: usize) -> (out: Vec<char>)
    requires
        from <= to <= s@.len(),
    ensures
        out@ == s@.subrange(from as int, to as int),
{
    let mut out: Vec<char> = Vec::new();
    let mut i = from;
    while i < to
        invariant
            from <= i <= to <= s@.len(),
            out@ == s@.subrange(from as int, i as int),
        decreases to - i,
    {
        out.push(s[i]);
        i = i + 1;
        assert(out@ =~= s@.subrange(from as int, i as int));
    }
    out
}

/// `s` trimmed of white space at both ends.
pub fn trim_chars(s: &[char]) -> (out: Vec<char>)
    ensures
        out@ == trim(s@),
{
    let n = s.len();
    let mut i: usize = 0;
    assert(s@.skip(0) =~= s@);
    while i < n && is_whitespace(s[i])
        invariant
            i <= n == s@.len(),
            trim_start(s@) == trim_start(s@.skip(i as int)),
        decreases n - i,
    {
        assert(s@.skip(i as int).drop_first() =~= s@.skip(i + 1));
        i = i + 1;
    }
    assert(trim_start(s@) =~= s@.subrange(i as int, n as int));
    let mut j: usize = n;
    while j > i && is_whitespace(s[j - 1])
        invariant
            i <= j <= n == s@.len(),
            trim(s@) == trim_end(s@.subrange(i as int, j as int)),
        decreases j,
    {
        assert(s@.subrange(i as int, j as int).drop_last() =~= s@.subrange(i as int, j - 1));
        j = j - 1;
    }
    copy_range(s, i, j)
}


/// The views of a sequence of character vectors.
pub open spec fn views(v: Seq<Vec<char>>) -> Seq<Seq<char>> {
    v.map_values(|x: Vec<char>| x@)
}

/// The pieces of `s` between occurrences of `sep`, as `str::split` with a
/// `char` pattern yields them: there is always at least one piece, and
/// `n` separators give `n + 1` pieces.
pub open spec fn split_on(s: Seq<char>, sep: char) -> Seq<Seq<char>>
    decreases s.len(),
{
    if s.len() == 0 {
        seq![Seq::<char>::empty()]
    } else {
        let rest = split_on(s.drop_last(), sep);
        if s.last() == sep {
            rest.push(Seq::<char>::empty())
        } else {
            rest.update(rest.len() - 1, rest.last().push(s.last()))
        }
    }
}

/// `split_on` never yields an empty list of pieces.
pub proof fn lemma_split_on_nonempty(s: Seq<char>, sep: char)
    ensures
        split_on(s, sep).len() >= 1,
    decreases s.len(),
{
    if s.len() > 0 {
        lemma_split_on_nonempty(s.drop_last(), sep);
    }
}

/// The pieces of `s` between occurrences of `sep`.
pub fn split_chars(s: &[char], sep: char) -> (out: Vec<Vec<char>>)
    ensures
        views(out@) == split_on(s@, sep),
{
    let mut done: Vec<Vec<char>> = Vec::new();
    let mut cur: Vec<char> = Vec::new();
    let n = s.len();
    let mut i: usize = 0;
    assert(s@.take(0) =~= Seq::<char>::empty());
    assert(views(done@).push(cur@) =~= split_on(s@.take(0), sep));
    while i < n
        invariant
            i <= n == s@.len(),
            views(done@).push(cur@) == split_on(s@.take(i as int), sep),
        decreases n - i,
    {
        let c = s[i];
        assert(s@.take(i + 1).drop_last() =~= s@.take(i as int));
        assert(s@.take(i + 1).last() == c);
        if c == sep {
            let ghost before = views(done@).push(cur@);
            done.push(cur);
            cur = Vec::new();
            assert(views(done@) =~= before);
            assert(views(done@).push(cur@) =~= split_on(s@.take(i + 1), sep));
        } else {
            let ghost before = views(done@);
            cur.push(c);
            assert(views(done@).push(cur@) =~= split_on(s@.take(i + 1), sep));
        }
        i = i + 1;
    }
    assert(s@.take(n as int) =~= s@);
    let ghost before = views(done@).push(cur@);
    done.push(cur);
    assert(views(done@) =~= before);
    done
}

/// The maximal runs of non-white-space characters of `s`, in order, as
/// `str::split_whitespace` yields them.
pub open spec fn words(s: Seq<char>) -> Seq<Seq<char>>
    decreases s.len(),
{
    if s.len() == 0 {
        Seq::empty()
    } else {
        let rest = words(s.drop_last());
        let c = s.last();
        if is_space(c) {
            rest
        } else if s.len() >= 2 && !is_space(s[s.len() - 2]) && rest.len() > 0 {
            rest.update(rest.len() - 1, rest.last().push(c))
        } else {
            rest.push(seq![c])
        }
    }
}

/// The words of `s`, in order.
pub fn split_words(s: &[char]) -> (out: Vec<Vec<char>>)
    ensures
        views(out@) == words(s@),
{
    let mut done: Vec<Vec<char>> = Vec::new();
    let mut cur: Vec<char> = Vec::new();
    let n = s.len();
    let mut i: usize = 0;
    assert(s@.take(0) =~= Seq::<char>::empty());
    assert(views(done@) =~= words(s@.take(0)));
    while i < n
        invariant
            i <= n == s@.len(),
            cur@.len() > 0 <==> (i > 0 && !is_space(s@[i - 1])),
            cur@.len() > 0 ==> views(done@).push(cur@) == words(s@.take(i as int)),
            cur@.len() == 0 ==> views(done@) == words(s@.take(i as int)),
        decreases n - i,
    {
        let c = s[i];
        let ghost t = s@.take(i + 1);
        assert(t.drop_last() =~= s@.take(i as int));
        assert(t.last() == c);
        if is_whitespace(c) {
            if cur.len() > 0 {
                let ghost before = views(done@).push(cur@);
                done.push(cur);
                cur = Vec::new();
                assert(views(done@) =~= before);
            }
        } else {
            if cur.len() > 0 {
                assert(t[t.len() - 2] == s@[i - 1]);
                cur.push(c);
                assert(views(done@).push(cur@) =~= words(t));
            } else {
                cur.push(c);
                assert(cur@ =~= seq![c]);
                assert(views(done@).push(cur@) =~= words(t));
            }
        }
        i = i + 1;
    }
    assert(s@.take(n as int) =~= s@);
    if cur.len() > 0 {
        let ghost before = views(done@).push(cur@);
        done.push(cur);
        assert(views(done@) =~= before);
    }
    done
}

/// Whether two character sequences are equal.
pub fn same_chars(a: &[char], b: &[char]) -> (r: bool)
    ensures
        r == (a@ == b@),
{
    if a.len() != b.len() {
        return false;
    }
    let n = a.len();
    let mut i: usize = 0;
    while i < n
        invariant
            i <= n == a@.len() == b@.len(),
            forall|k: int| 0 <= k < i ==> a@[k] == b@[k],
        decreases n - i,
    {
        if a[i] != b[i] {
            return false;
        }
        i = i + 1;
    }
    assert(a@ =~= b@);
    true
}

/// Whether the characters `a` spell the literal `lit`.
pub fn is_literal(a: &[char], lit: &str) -> (r: bool)
    ensures
        r == (a@ == lit@),
{
    let n = lit.unicode_len();
    if a.len() != n {
        return false;
    }
    let mut i: usize = 0;
    while i < n
        invariant
            i <= n == a@.len() == lit@.len(),
            forall|k: int| 0 <= k < i ==> a@[k] == lit@[k],
        decreases n - i,
    {
        if a[i] != lit.get_char(i) {
            return false;
        }
        i = i + 1;
    }
    assert(a@ =~= lit@);
    true
}


/// A line without the carriage return of a `\r\n` ending.
pub open spec fn strip_cr(p: Seq<char>) -> Seq<char> {
    if p.len() > 0 && p.last() == '\r' {
        p.drop_last()
    } else {
        p
    }
}

/// The lines of `s`, as `str::lines` yields them: pieces between `\n`
/// characters; a line ended by `\n` loses one trailing `\r`; a final `\n`
/// does not start another line, and the empty string has no lines.
pub open spec fn lines(s: Seq<char>) -> Seq<Seq<char>> {
    if s.len() == 0 {
        Seq::empty()
    } else {
        let parts = split_on(s, '\n');
        let ended = parts.drop_last().map_values(|p: Seq<char>| strip_cr(p));
        if s.last() == '\n' {
            ended
        } else {
            ended.push(parts.last())
        }
    }
}

/// `p` without a trailing carriage return.
fn strip_cr_chars(p: &Vec<char>) -> (out: Vec<char>)
    ensures
        out@ == strip_cr(p@),
{
    let n = p.len();
    if n > 0 && p[n - 1] == '\r' {
        copy_range(p.as_slice(), 0, n - 1)
    } else {
        copy_range(p.as_slice(), 0, n)
    }
}

/// The lines of `s`.
pub fn split_lines(s: &[char]) -> (out: Vec<Vec<char>>)
    ensures
        views(out@) == lines(s@),
{
    let mut out: Vec<Vec<char>> = Vec::new();
    let n = s.len();
    if n == 0 {
        assert(views(out@) =~= lines(s@));
        return out;
    }
    let parts = split_chars(s, '\n');
    proof {
        lemma_split_on_nonempty(s@, '\n');
    }
    let m = parts.len() - 1;
    let ghost pv = views(parts@);
    let mut k: usize = 0;
    while k < m
        invariant
            k <= m,
            m + 1 == parts@.len(),
            pv == views(parts@),
            pv == split_on(s@, '\n'),
            views(out@) == pv.take(k as int).map_values(|p: Seq<char>| strip_cr(p)),
        decreases m - k,
    {
        let line = strip_cr_chars(&parts[k]);
        let ghost before = views(out@);
        out.push(line);
        assert(views(out@) =~= before.push(line@));
        assert(pv.take(k + 1) =~= pv.take(k as int).push(pv[k as int]));
        assert(views(out@) =~= pv.take(k + 1).map_values(|p: Seq<char>| strip_cr(p)));
        k = k + 1;
    }
    assert(pv.take(m as int) =~= pv.drop_last());
    if s[n - 1] != '\n' {
        let last = copy_range(parts[m].as_slice(), 0, parts[m].len());
        assert(last@ =~= pv.last());
        let ghost before = views(out@);
        out.push(last);
        assert(views(out@) =~= before.push(pv.last()));
    }
    assert(views(out@) =~= lines(s@));
    out
}

/// The parts joined with `sep` between neighbours.
pub open spec fn join(parts: Seq<Seq<char>>, sep: Seq<char>) -> Seq<char>
    decreases parts.len(),
{
    if parts.len() == 0 {
        Seq::empty()
    } else if parts.len() == 1 {
        parts[0]
    } else {
        join(parts.drop_last(), sep) + sep + parts.last()
    }
}

/// The parts from index `start` on, joined with `sep` between neighbours.
pub fn join_from(parts: &Vec<Vec<char>>, start: usize, sep: char) -> (out: Vec<char>)
    requires
        start <= parts@.len(),
    ensures
        out@ == join(views(parts@).skip(start as int), seq![sep]),
{
    let ghost pv = views(parts@);
    let mut out: Vec<char> = Vec::new();
    let n = parts.len();
    let mut i = start;
    assert(pv.subrange(start as int, start as int) =~= Seq::<Seq<char>>::empty());
    while i < n
        invariant
            start <= i <= n == parts@.len(),
            pv == views(parts@),
            out@ == join(pv.subrange(start as int, i as int), seq![sep]),
        decreases n - i,
    {
        let ghost prev = pv.subrange(start as int, i as int);
        let ghost next = pv.subrange(start as int, i + 1);
        assert(next.drop_last() =~= prev);
        assert(next.last() == parts@[i as int]@);
        if i > start {
            out.push(sep);
        }
        let p = &parts[i];
        let mut j: usize = 0;
        let ghost base = out@;
        while j < p.len()
            invariant
                j <= p@.len(),
                out@ == base + p@.take(j as int),
            decreases p@.len() - j,
        {
            out.push(p[j]);
            j = j + 1;
            assert(out@ =~= base + p@.take(j as int));
        }
        assert(p@.take(j as int) =~= p@);
        if i > start {
            assert(out@ =~= join(next, seq![sep]));
        } else {
            assert(next =~= seq![p@]);
            assert(out@ =~= join(next, seq![sep]));
        }
        i = i + 1;
    }
    assert(pv.subrange(start as int, n as int) =~= pv.skip(start as int));
    out
}

/// `a` comes strictly before `b` in lexicographic order by code point,
/// the order of `str` comparison (UTF-8 keeps code point order).
pub open spec fn lex_less(a: Seq<char>, b: Seq<char>) -> bool
    decreases a.len(),
{
    if a.len() == 0 {
        b.len() > 0
    } else if b.len() == 0 {
        false
    } else if a[0] != b[0] {
        (a[0] as int) < (b[0] as int)
    } else {
        lex_less(a.drop_first(), b.drop_first())
    }
}

/// Whether `a` comes strictly before `b`.
pub fn less_chars(a: &[char], b: &[char]) -> (r: bool)
    ensures
        r == lex_less(a@, b@),
{
    let mut i: usize = 0;
    assert(a@.skip(0) =~= a@);
    assert(b@.skip(0) =~= b@);
    while i < a.len() && i < b.len() && a[i] == b[i]
        invariant
            i <= a@.len(),
            i <= b@.len(),
            lex_less(a@, b@) == lex_less(a@.skip(i as int), b@.skip(i as int)),
        decreases a@.len() - i,
    {
        assert(a@.skip(i as int).drop_first() =~= a@.skip(i + 1));
        assert(b@.skip(i as int).drop_first() =~= b@.skip(i + 1));
        i = i + 1;
    }
    if i == a.len() {
        i < b.len()
    } else if i == b.len() {
        false
    } else {
        a[i] < b[i]
    }
}

/// `str::to_lowercase` of a string with these characters (Unicode case
/// mapping, a function of the characters alone).
pub uninterp spec fn lowercase(s: Seq<char>) -> Seq<char>;

/// `str::to_uppercase` of a string with these characters.
pub uninterp spec fn uppercase(s: Seq<char>) -> Seq<char>;

/// Calls `str::to_lowercase`.
#[verifier::external_body]
pub fn lowercase_of(s: &str) -> (out: String)
    ensures
        out@ == lowercase(s@),
{
    s.to_lowercase()
}

/// Calls `str::to_uppercase`.
#[verifier::external_body]
pub fn uppercase_of(s: &str) -> (out: String)
    ensures
        out@ == uppercase(s@),
{
    s.to_uppercase()
}

/// The decimal digit character for `d < 10`.
pub open spec fn digit_char(d: nat) -> char {
    (d + 48) as char
}

/// The decimal representation of `n`, as `Display` writes an unsigned
/// integer: no sign, no leading zeros.
pub open spec fn decimal(n: nat) -> Seq<char>
    decreases n,
{
    if n < 10 {
        seq![digit_char(n)]
    } else {
        decimal(n / 10).push(digit_char(n % 10))
    }
}

/// Appends the decimal representation of `n` to `out`.
pub fn push_decimal(out: &mut Vec<char>, n: usize)
    ensures
        final(out)@ == old(out)@ + decimal(n as nat),
    decreases n,
{
    if n >= 10 {
        push_decimal(out, n / 10);
    }
    let d: u8 = (n % 10) as u8;
    let c: char = (d + 48) as char;
    out.push(c);
    assert(final(out)@ =~= old(out)@ + decimal(n as nat));
}

/// Pieces around a separator: splitting `s`, the separator and `t` gives
/// the pieces of `s` followed by those of `t`.
pub proof fn lemma_split_on_concat(s: Seq<char>, sep: char, t: Seq<char>)
    ensures
        split_on(s + seq![sep] + t, sep) == split_on(s, sep) + split_on(t, sep),
    decreases t.len(),
{
    let u = s + seq![sep] + t;
    if t.len() == 0 {
        assert(u.drop_last() =~= s);
        assert(split_on(u, sep) =~= split_on(s, sep) + split_on(t, sep));
    } else {
        assert(u.drop_last() =~= s + seq![sep] + t.drop_last());
        lemma_split_on_concat(s, sep, t.drop_last());
        lemma_split_on_nonempty(t.drop_last(), sep);
        lemma_split_on_nonempty(s, sep);
        let a = split_on(s, sep);
        let b = split_on(t.drop_last(), sep);
        if t.last() == sep {
            assert(split_on(u, sep) =~= a + split_on(t, sep));
        } else {
            assert((a + b).update((a + b).len() - 1, (a + b).last().push(t.last())) =~= a + b.update(
                b.len() - 1,
                b.last().push(t.last()),
            ));
            assert(split_on(u, sep) =~= a + split_on(t, sep));
        }
    }
}

/// A text without the separator is a single piece.
pub proof fn lemma_split_on_single(s: Seq<char>, sep: char)
    requires
        forall|i: int| 0 <= i < s.len() ==> s[i] != sep,
    ensures
        split_on(s, sep) == seq![s],
    decreases s.len(),
{
    if s.len() > 0 {
        lemma_split_on_single(s.drop_last(), sep);
        assert(split_on(s, sep) =~= seq![s.drop_last().push(s.last())]);
        assert(s.drop_last().push(s.last()) =~= s);
    } else {
        assert(s =~= Seq::<char>::empty());
    }
}

/// The decimal representation of a number holds only digit characters.
pub proof fn lemma_decimal_digits(n: nat)
    ensures
        forall|i: int| 0 <= i < decimal(n).len() ==> 48 <= #[trigger] decimal(n)[i] as int <= 57,
    decreases n,
{
    assert(digit_char(n % 10) as int == n % 10 + 48);
    if n >= 10 {
        lemma_decimal_digits(n / 10);
        let p = decimal(n / 10);
        assert forall|i: int| 0 <= i < decimal(n).len() implies 48 <= #[trigger] decimal(n)[i] as int <= 57 by {
            if i < p.len() {
                assert(decimal(n)[i] == p[i]);
            }
        }
    } else {
        assert(n % 10 == n);
    }
}

/// What `trim_end` leaves is a prefix of its argument, empty or ending in a
/// character that is not white space.
proof fn lemma_trim_end_prefix(s: Seq<char>)
    ensures
        trim_end(s) == s.take(trim_end(s).len() as int),
        trim_end(s).len() <= s.len(),
        trim_end(s).len() == 0 || !is_space(trim_end(s).last()),
    decreases s.len(),
{
    if s.len() > 0 && is_space(s.last()) {
        lemma_trim_end_prefix(s.drop_last());
        assert(s.drop_last().take(trim_end(s).len() as int) =~= s.take(trim_end(s).len() as int));
    } else {
        assert(s.take(s.len() as int) =~= s);
    }
}

/// What `trim_start` leaves is empty or starts with a character that is not
/// white space.
proof fn lemma_trim_start_first(s: Seq<char>)
    ensures
        trim_start(s).len() == 0 || !is_space(trim_start(s)[0]),
    decreases s.len(),
{
    if s.len() > 0 && is_space(s[0]) {
        lemma_trim_start_first(s.drop_first());
    }
}

/// Trimming twice is trimming once.
pub proof fn lemma_trim_idempotent(s: Seq<char>)
    ensures
        trim(trim(s)) == trim(s),
{
    let x = trim_start(s);
    let t = trim(s);
    lemma_trim_start_first(s);
    lemma_trim_end_prefix(x);
    if t.len() > 0 {
        assert(t[0] == x[0]);
    }
    assert(trim_start(t) == t);
    assert(trim_end(t) == t);
}

/// A text equal to its trimmed self does not start with white space.
pub proof fn lemma_trim_start_of_plain(s: Seq<char>)
    requires
        trim(s) == s,
        s.len() > 0,
    ensures
        !is_space(s[0]),
{
    lemma_trim_start_first(s);
    lemma_trim_end_prefix(trim_start(s));
    let x = trim_start(s);
    assert(s[0] == x[0]);
}

/// A text equal to its trimmed self does not end with white space.
pub proof fn lemma_trim_end_of_plain(s: Seq<char>)
    requires
        trim(s) == s,
        s.len() > 0,
    ensures
        !is_space(s.last()),
{
    lemma_trim_end_prefix(trim_start(s));
}

/// Joining pieces that hold no separator and splitting the result again
/// gives the pieces back.
pub proof fn lemma_split_join(ls: Seq<Seq<char>>, sep: char)
    requires
        ls.len() >= 1,
        forall|i: int, j: int| 0 <= i < ls.len() && 0 <= j < ls[i].len() ==> ls[i][j] != sep,
    ensures
        split_on(join(ls, seq![sep]), sep) == ls,
    decreases ls.len(),
{
    if ls.len() == 1 {
        lemma_split_on_single(ls[0], sep);
        assert(seq![ls[0]] =~= ls);
    } else {
        let front = ls.drop_last();
        lemma_split_join(front, sep);
        assert forall|j: int| 0 <= j < ls.last().len() implies ls.last()[j] != sep by {
            assert(ls.last() == ls[ls.len() - 1]);
        }
        lemma_split_on_single(ls.last(), sep);
        lemma_split_on_concat(join(front, seq![sep]), sep, ls.last());
        assert(front.push(ls.last()) =~= ls);
        assert(front + seq![ls.last()] =~= ls);
    }
}

/// Lines joined by newlines read back as the same lines, when none of them
/// is empty, holds a newline, or ends in a carriage return.
pub proof fn lemma_lines_of_join(ls: Seq<Seq<char>>)
    requires
        forall|i: int| 0 <= i < ls.len() ==> #[trigger] ls[i].len() > 0 && ls[i].last() != '\r',
        forall|i: int, j: int| 0 <= i < ls.len() && 0 <= j < ls[i].len() ==> ls[i][j] != '\n',
    ensures
        lines(join(ls, seq!['\n'])) == ls,
{
    if ls.len() > 0 {
        let s = join(ls, seq!['\n']);
        lemma_split_join(ls, '\n');
        lemma_join_last(ls, seq!['\n']);
        assert(ls.last() == ls[ls.len() - 1]);
        assert(s.last() == ls.last().last());
        let parts = split_on(s, '\n');
        assert forall|i: int| 0 <= i < parts.drop_last().len() implies strip_cr(parts.drop_last()[i]) == parts.drop_last()[i] by {
            assert(parts.drop_last()[i] == ls[i]);
        }
        assert(parts.drop_last().map_values(|p: Seq<char>| strip_cr(p)) =~= parts.drop_last());
        assert(parts.drop_last().push(parts.last()) =~= ls);
    } else {
        assert(join(ls, seq!['\n']) =~= Seq::<char>::empty());
    }
}

/// A join of pieces ends like its last piece, when that is not empty.
proof fn lemma_join_last(ls: Seq<Seq<char>>, sep: Seq<char>)
    requires
        ls.len() > 0,
        ls.last().len() > 0,
    ensures
        join(ls, sep).len() >= ls.last().len(),
        join(ls, sep).last() == ls.last().last(),
{
}

} // verus!
