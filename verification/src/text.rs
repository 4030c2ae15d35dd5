//! Character-level text helpers shared by the validators, the path model and
//! the command renderer. Everything here works on `Seq<char>` views.
use vstd::prelude::*;
use vstd::string::*;

verus! {

/// Characters of Unicode's `White_Space` property, the set that `str::trim`
/// removes from both ends of a string.
pub open spec fn is_unicode_whitespace(c: char) -> bool {
    let u = c as u32;
    ||| 0x09 <= u <= 0x0d
    ||| u == 0x20
    ||| u == 0x85
    ||| u == 0xa0
    ||| u == 0x1680
    ||| 0x2000 <= u <= 0x200a
    ||| u == 0x2028
    ||| u == 0x2029
    ||| u == 0x202f
    ||| u == 0x205f
    ||| u == 0x3000
}

/// ASCII whitespace as `char::is_ascii_whitespace` defines it:
/// space, tab, line feed, form feed and carriage return.
pub open spec fn is_ascii_whitespace(c: char) -> bool {
    c == ' ' || c == '\t' || c == '\n' || c == '\x0C' || c == '\r'
}

/// `s` with its leading whitespace removed.
pub open spec fn trim_start(s: Seq<char>) -> Seq<char>
    decreases s.len(),
{
    if s.len() > 0 && is_unicode_whitespace(s[0]) {
        trim_start(s.drop_first())
    } else {
        s
    }
}

/// `s` with its trailing whitespace removed.
pub open spec fn trim_end(s: Seq<char>) -> Seq<char>
    decreases s.len(),
{
    if s.len() > 0 && is_unicode_whitespace(s.last()) {
        trim_end(s.drop_last())
    } else {
        s
    }
}

/// `s` with whitespace removed from both ends.
pub open spec fn trim(s: Seq<char>) -> Seq<char> {
    trim_end(trim_start(s))
}

/// Whether `pat` occurs in `s` at position `i`.
pub open spec fn occurs_at(s: Seq<char>, pat: Seq<char>, i: int) -> bool {
    0 <= i && i + pat.len() <= s.len() && s.subrange(i, i + pat.len()) == pat
}

/// Whether `pat` occurs anywhere in `s`.
pub open spec fn contains(s: Seq<char>, pat: Seq<char>) -> bool {
    exists|i: int| occurs_at(s, pat, i)
}

/// Left-to-right replacement of the non-overlapping occurrences of `pat`
/// in `s` by `rep`, as `str::replace` does.
pub open spec fn replace_all(s: Seq<char>, pat: Seq<char>, rep: Seq<char>) -> Seq<char>
    decreases s.len(),
{
    if pat.len() == 0 || s.len() < pat.len() {
        s
    } else if s.subrange(0, pat.len() as int) == pat {
        rep + replace_all(s.subrange(pat.len() as int, s.len() as int), pat, rep)
    } else {
        seq![s[0]] + replace_all(s.drop_first(), pat, rep)
    }
}

/// The decimal digit `d` (below ten) as a character.
pub open spec fn digit_char(d: nat) -> char {
    seq!['0', '1', '2', '3', '4', '5', '6', '7', '8', '9'][d as int]
}

/// The decimal representation of `n`, without leading zeros.
pub open spec fn decimal(n: nat) -> Seq<char>
    decreases n,
{
    if n < 10 {
        seq![digit_char(n)]
    } else {
        decimal(n / 10).push(digit_char(n % 10))
    }
}

/// `parts` joined by `sep`.
pub open spec fn join(parts: Seq<Seq<char>>, sep: Seq<char>) -> Seq<char>
    decreases parts.len(),
{
    if parts.len() == 0 {
        Seq::empty()
    } else if parts.len() == 1 {
        parts[0]
    } else {
        join(parts.drop_last(), sep) + sep + parts.last()
    }
}

/// The views of a sequence of strings.
pub open spec fn views(v: Seq<String>) -> Seq<Seq<char>> {
    v.map_values(|s: String| s@)
}

/// The pieces of `s` between the occurrences of `sep`.
pub open spec fn split_on(s: Seq<char>, sep: char) -> Seq<Seq<char>>
    decreases s.len(),
{
    if s.len() == 0 {
        seq![Seq::empty()]
    } else {
        let p = split_on(s.drop_last(), sep);
        if s.last() == sep {
            p.push(Seq::empty())
        } else {
            p.update(p.len() - 1, p.last().push(s.last()))
        }
    }
}

/// Appends one character to a string with `String::push`. Trusted: the
/// contract claims that the string's characters afterwards are the old ones
/// followed by `c`, as the standard library documents.
#[verifier::external_body]
pub(crate) fn push_char(s: &mut String, c: char)
    ensures
        final(s)@ == old(s)@.push(c),
{
    s.push(c);
}

/// Replaces the whole of a string with `with`, by `String::replace_range`
/// over the full range. Trusted: the contract claims that the string's
/// characters afterwards are those of `with`, as the standard library
/// documents (the range is removed and `with` inserted in its place).
#[verifier::external_body]
pub(crate) fn replace_whole(s: &mut String, with: &str)
    ensures
        final(s)@ == with@,
{
    s.replace_range(.., with);
}

/// The characters of a string slice, in order.
pub fn chars_of(s: &str) -> (r: Vec<char>)
    ensures
        r@ == s@,
{
    let mut r: Vec<char> = Vec::new();
    for c in it: s.chars()
        invariant
            r@ == it.seq().take(it.index() as int),
    {
        r.push(c);
    }
    r
}

pub proof fn lemma_split_nonempty(s: Seq<char>, sep: char)
    ensures
        split_on(s, sep).len() >= 1,
    decreases s.len(),
{
    if s.len() > 0 {
        lemma_split_nonempty(s.drop_last(), sep);
    }
}

/// The pieces of `chars` between the occurrences of `sep`.
pub fn split_chars(chars: &Vec<char>, sep: char) -> (r: Vec<Vec<char>>)
    ensures
        r@.len() == split_on(chars@, sep).len(),
        forall|k: int| 0 <= k < r@.len() ==> #[trigger] r@[k]@ == split_on(chars@, sep)[k],
{
    let mut pieces: Vec<Vec<char>> = Vec::new();
    let mut cur: Vec<char> = Vec::new();
    let mut i: usize = 0;
    assert(chars@.take(0) =~= Seq::<char>::empty());
    while i < chars.len()
        invariant
            i <= chars.len(),
            pieces@.len() + 1 == split_on(chars@.take(i as int), sep).len(),
            forall|k: int|
                0 <= k < pieces@.len() ==> #[trigger] pieces@[k]@ == split_on(
                    chars@.take(i as int),
                    sep,
                )[k],
            cur@ == split_on(chars@.take(i as int), sep).last(),
        decreases chars.len() - i,
    {
        let ghost before = split_on(chars@.take(i as int), sep);
        assert(chars@.take(i + 1).drop_last() =~= chars@.take(i as int));
        assert(chars@.take(i + 1).last() == chars@[i as int]);
        proof {
            lemma_split_nonempty(chars@.take(i as int), sep);
        }
        if chars[i] == sep {
            pieces.push(cur);
            cur = Vec::new();
        } else {
            cur.push(chars[i]);
        }
        i = i + 1;
    }
    assert(chars@.take(chars.len() as int) =~= chars@);
    proof {
        lemma_split_nonempty(chars@, sep);
    }
    pieces.push(cur);
    pieces
}


/// `p` without one trailing carriage return.
pub open spec fn strip_cr(p: Seq<char>) -> Seq<char> {
    if p.len() > 0 && p.last() == '\r' {
        p.drop_last()
    } else {
        p
    }
}

/// The lines of `s` as `str::lines` gives them: split at `\n`, without a
/// final empty line after a trailing `\n`, and with the `\r` of each `\r\n`
/// ending removed.
pub open spec fn lines(s: Seq<char>) -> Seq<Seq<char>> {
    Seq::new(line_count(s), |i: int| line_at(s, i))
}

/// How many lines `s` has.
pub open spec fn line_count(s: Seq<char>) -> nat {
    let parts = split_on(s, '\n');
    if s.len() == 0 || s.last() == '\n' {
        (parts.len() - 1) as nat
    } else {
        parts.len()
    }
}

/// Line `i` of `s`.
pub open spec fn line_at(s: Seq<char>, i: int) -> Seq<char> {
    let parts = split_on(s, '\n');
    if i < parts.len() - 1 {
        strip_cr(parts[i])
    } else {
        parts[i]
    }
}

proof fn lemma_split_last_empty(s: Seq<char>, sep: char)
    ensures
        (s.len() == 0 || s.last() == sep) ==> split_on(s, sep).last() == Seq::<char>::empty(),
{
    if s.len() > 0 {
        lemma_split_nonempty(s.drop_last(), sep);
    }
}

/// The lines of `s`, as `str::lines` splits them.
pub fn split_lines(s: &str) -> (r: Vec<String>)
    ensures
        views(r@) == lines(s@),
{
    let chars = chars_of(s);
    let parts = split_chars(&chars, '\n');
    proof {
        lemma_split_nonempty(s@, '\n');
        lemma_split_last_empty(s@, '\n');
    }
    let ghost ps = split_on(s@, '\n');
    let count = if chars.len() == 0 || chars[chars.len() - 1] == '\n' {
        parts.len() - 1
    } else {
        parts.len()
    };
    let mut r: Vec<String> = Vec::new();
    let mut i: usize = 0;
    while i < count
        invariant
            ps == split_on(s@, '\n'),
            parts@.len() == ps.len(),
            ps.len() >= 1,
            forall|k: int| 0 <= k < parts@.len() ==> #[trigger] parts@[k]@ == ps[k],
            count <= parts@.len(),
            i <= count,
            views(r@) == lines(s@).take(i as int),
            lines(s@).len() == count,
        decreases count - i,
    {
        let part = &parts[i];
        let n = part.len();
        let line = if i + 1 < parts.len() && n > 0 && part[n - 1] == '\r' {
            string_from_range(part, 0, n - 1)
        } else {
            string_from_range(part, 0, n)
        };
        proof {
            assert(part@ == ps[i as int]);
            assert(part@.subrange(0, n as int) =~= part@);
            if n > 0 {
                assert(part@.subrange(0, n - 1) =~= part@.drop_last());
                assert(part@.last() == part@[n - 1]);
            }
            assert(lines(s@)[i as int] == line_at(s@, i as int));
            if i + 1 < parts.len() && n > 0 && part@[n - 1] == '\r' {
                assert(line@ == part@.drop_last());
                assert(strip_cr(ps[i as int]) == part@.drop_last());
            } else {
                assert(line@ == part@);
            }
            assert(line_at(s@, i as int) == (if i < ps.len() - 1 {
                strip_cr(ps[i as int])
            } else {
                ps[i as int]
            }));
            assert(line@ == lines(s@)[i as int]);
        }
        let ghost old_r = r@;
        let ghost lv = line@;
        r.push(line);
        assert(views(r@) =~= views(old_r).push(lv));
        assert(lines(s@).take(i + 1) =~= lines(s@).take(i as int).push(lines(s@)[i as int]));
        i = i + 1;
    }
    assert(lines(s@).take(count as int) =~= lines(s@));
    r
}

/// The string made of the characters `chars[from..to]`.
pub fn string_from_range(chars: &Vec<char>, from: usize, to: usize) -> (r: String)
    requires
        from <= to <= chars.len(),
    ensures
        r@ == chars@.subrange(from as int, to as int),
{
    let mut r = String::new();
    let mut i = from;
    while i < to
        invariant
            from <= i <= to <= chars.len(),
            r@ == chars@.subrange(from as int, i as int),
        decreases to - i,
    {
        push_char(&mut r, chars[i]);
        assert(chars@.subrange(from as int, i + 1) == chars@.subrange(from as int, i as int).push(
            chars@[i as int],
        ));
        i = i + 1;
    }
    r
}

/// An owned copy of a string slice.
pub fn owned(s: &str) -> (r: String)
    ensures
        r@ == s@,
{
    s.to_owned()
}

/// `a` followed by `b`.
pub fn concat2(a: &str, b: &str) -> (r: String)
    ensures
        r@ == a@ + b@,
{
    let mut r = String::from_str(a);
    r.append(b);
    r
}

/// `a` followed by `b` and `c`.
pub fn concat3(a: &str, b: &str, c: &str) -> (r: String)
    ensures
        r@ == a@ + b@ + c@,
{
    let mut r = String::from_str(a);
    r.append(b);
    r.append(c);
    r
}

/// `a`, `b`, `c` and `d` in that order.
pub fn concat4(a: &str, b: &str, c: &str, d: &str) -> (r: String)
    ensures
        r@ == a@ + b@ + c@ + d@,
{
    let mut r = String::from_str(a);
    r.append(b);
    r.append(c);
    r.append(d);
    r
}

/// Whether two character sequences are equal.
pub fn chars_eq(a: &Vec<char>, b: &Vec<char>) -> (r: bool)
    ensures
        r == (a@ == b@),
{
    if a.len() != b.len() {
        return false;
    }
    let mut i: usize = 0;
    while i < a.len()
        invariant
            a.len() == b.len(),
            i <= a.len(),
            forall|k: int| 0 <= k < i ==> a@[k] == b@[k],
        decreases a.len() - i,
    {
        if a[i] != b[i] {
            return false;
        }
        i = i + 1;
    }
    assert(a@ =~= b@);
    true
}

/// Whether two string slices hold the same characters.
pub fn str_eq(a: &str, b: &str) -> (r: bool)
    ensures
        r == (a@ == b@),
{
    let x = chars_of(a);
    let y = chars_of(b);
    chars_eq(&x, &y)
}

/// Whether a string slice is empty.
pub fn is_empty_str(s: &str) -> (r: bool)
    ensures
        r == (s@.len() == 0),
{
    s.is_empty()
}

/// Whether `c` is whitespace in Unicode's sense.
pub fn is_whitespace_char(c: char) -> (r: bool)
    ensures
        r == is_unicode_whitespace(c),
{
    let u = c as u32;
    (0x09 <= u && u <= 0x0d) || u == 0x20 || u == 0x85 || u == 0xa0 || u == 0x1680 || (0x2000 <= u
        && u <= 0x200a) || u == 0x2028 || u == 0x2029 || u == 0x202f || u == 0x205f || u == 0x3000
}

proof fn lemma_trim_start_skip(s: Seq<char>, i: int)
    requires
        0 <= i < s.len(),
        is_unicode_whitespace(s[i]),
    ensures
        trim_start(s.subrange(i, s.len() as int)) == trim_start(s.subrange(i + 1, s.len() as int)),
{
    assert(s.subrange(i, s.len() as int).drop_first() =~= s.subrange(i + 1, s.len() as int));
}

proof fn lemma_trim_end_skip(s: Seq<char>, j: int)
    requires
        0 < j <= s.len(),
        is_unicode_whitespace(s[j - 1]),
    ensures
        trim_end(s.subrange(0, j)) == trim_end(s.subrange(0, j - 1)),
{
    assert(s.subrange(0, j).drop_last() =~= s.subrange(0, j - 1));
}

proof fn lemma_trim_end_of_tail(s: Seq<char>, i: int, j: int)
    requires
        0 <= i <= j <= s.len(),
        forall|k: int| j <= k < s.len() ==> is_unicode_whitespace(s[k]),
    ensures
        trim_end(s.subrange(i, s.len() as int)) == trim_end(s.subrange(i, j)),
    decreases s.len() - j,
{
    if j < s.len() {
        let t = s.subrange(i, s.len() as int);
        assert(t.drop_last() =~= s.subrange(i, s.len() - 1));
        assert(t.last() == s[s.len() - 1]);
        lemma_trim_end_of_tail(s.subrange(0, s.len() - 1), i, j);
        assert(s.subrange(0, s.len() - 1).subrange(i, s.len() - 1) =~= s.subrange(i, s.len() - 1));
        assert(s.subrange(0, s.len() - 1).subrange(i, j) =~= s.subrange(i, j));
    }
}

/// `s` with whitespace removed from both ends, as `str::trim` does.
pub fn trim_str(s: &str) -> (r: String)
    ensures
        r@ == trim(s@),
{
    let chars = chars_of(s);
    let n = chars.len();
    let mut i: usize = 0;
    assert(chars@.subrange(0, n as int) =~= chars@);
    while i < n && is_whitespace_char(chars[i])
        invariant
            n == chars@.len(),
            chars@ == s@,
            i <= n,
            trim_start(s@) == trim_start(chars@.subrange(i as int, n as int)),
        decreases n - i,
    {
        proof {
            lemma_trim_start_skip(chars@, i as int);
        }
        i = i + 1;
    }
    let ghost rest = chars@.subrange(i as int, n as int);
    assert(trim_start(s@) == rest) by {
        if rest.len() > 0 {
            assert(rest[0] == chars@[i as int]);
        }
    }
    let mut j: usize = n;
    while j > i && is_whitespace_char(chars[j - 1])
        invariant
            n == chars@.len(),
            i <= j <= n,
            forall|k: int| j <= k < n ==> is_unicode_whitespace(chars@[k]),
        decreases j,
    {
        j = j - 1;
    }
    proof {
        lemma_trim_end_of_tail(chars@, i as int, j as int);
        let mid = chars@.subrange(i as int, j as int);
        if mid.len() > 0 {
            assert(mid.last() == chars@[j - 1]);
        }
        assert(trim_end(mid) == mid);
    }
    string_from_range(&chars, i, j)
}


/// Whether `pat` occurs in `chars` at position `i`.
fn occurs_at_exec(chars: &Vec<char>, pat: &Vec<char>, i: usize) -> (r: bool)
    requires
        i <= chars.len(),
    ensures
        r == (i + pat.len() <= chars.len() && chars@.subrange(i as int, i + pat.len()) == pat@),
{
    if pat.len() > chars.len() - i {
        return false;
    }
    let mut k: usize = 0;
    while k < pat.len()
        invariant
            i + pat.len() <= chars.len(),
            k <= pat.len(),
            forall|m: int| 0 <= m < k ==> chars@[i + m] == pat@[m],
        decreases pat.len() - k,
    {
        if chars[i + k] != pat[k] {
            assert(chars@.subrange(i as int, i + pat.len())[k as int] != pat@[k as int]);
            return false;
        }
        k = k + 1;
    }
    assert(chars@.subrange(i as int, i + pat.len()) =~= pat@);
    true
}

proof fn lemma_replace_step_match(s: Seq<char>, pat: Seq<char>, rep: Seq<char>, i: int)
    requires
        pat.len() > 0,
        0 <= i,
        i + pat.len() <= s.len(),
        s.subrange(i, i + pat.len()) == pat,
    ensures
        replace_all(s.subrange(i, s.len() as int), pat, rep) == rep + replace_all(
            s.subrange(i + pat.len(), s.len() as int),
            pat,
            rep,
        ),
{
    let t = s.subrange(i, s.len() as int);
    assert(t.subrange(0, pat.len() as int) =~= pat);
    assert(t.subrange(pat.len() as int, t.len() as int) =~= s.subrange(
        i + pat.len(),
        s.len() as int,
    ));
}

proof fn lemma_replace_step_copy(s: Seq<char>, pat: Seq<char>, rep: Seq<char>, i: int)
    requires
        pat.len() > 0,
        0 <= i < s.len(),
        !(i + pat.len() <= s.len() && s.subrange(i, i + pat.len()) == pat),
    ensures
        replace_all(s.subrange(i, s.len() as int), pat, rep) == seq![s[i]] + replace_all(
            s.subrange(i + 1, s.len() as int),
            pat,
            rep,
        ),
{
    let t = s.subrange(i, s.len() as int);
    assert(t.drop_first() =~= s.subrange(i + 1, s.len() as int));
    if t.len() >= pat.len() {
        assert(t.subrange(0, pat.len() as int) =~= s.subrange(i, i + pat.len()));
    } else {
        let tail = s.subrange(i + 1, s.len() as int);
        assert(replace_all(tail, pat, rep) == tail);
        assert(seq![s[i]] + tail =~= t);
    }
}

/// `text` with every non-overlapping occurrence of `pat`, scanned from the
/// left, replaced by `rep`.
pub fn replace_str(text: &str, pat: &str, rep: &str) -> (r: String)
    requires
        pat@.len() > 0,
    ensures
        r@ == replace_all(text@, pat@, rep@),
{
    let chars = chars_of(text);
    let pchars = chars_of(pat);
    let mut out = String::new();
    let mut i: usize = 0;
    assert(chars@.subrange(0, chars@.len() as int) =~= chars@);
    while i < chars.len()
        invariant
            chars@ == text@,
            pchars@ == pat@,
            pat@.len() > 0,
            i <= chars.len(),
            out@ + replace_all(chars@.subrange(i as int, chars@.len() as int), pat@, rep@)
                == replace_all(text@, pat@, rep@),
        decreases chars.len() - i,
    {
        if occurs_at_exec(&chars, &pchars, i) {
            proof {
                lemma_replace_step_match(chars@, pat@, rep@, i as int);
            }
            let ghost before = out@;
            out.append(rep);
            assert(out@ + replace_all(
                chars@.subrange(i + pchars.len(), chars@.len() as int),
                pat@,
                rep@,
            ) =~= before + (rep@ + replace_all(
                chars@.subrange(i + pchars.len(), chars@.len() as int),
                pat@,
                rep@,
            )));
            i = i + pchars.len();
        } else {
            proof {
                lemma_replace_step_copy(chars@, pat@, rep@, i as int);
            }
            let ghost before = out@;
            push_char(&mut out, chars[i]);
            assert(out@ + replace_all(chars@.subrange(i + 1, chars@.len() as int), pat@, rep@)
                =~= before + (seq![chars@[i as int]] + replace_all(
                chars@.subrange(i + 1, chars@.len() as int),
                pat@,
                rep@,
            )));
            i = i + 1;
        }
    }
    assert(chars@.subrange(i as int, chars@.len() as int) =~= Seq::<char>::empty());
    assert(replace_all(Seq::<char>::empty(), pat@, rep@) == Seq::<char>::empty());
    assert(out@ + Seq::<char>::empty() =~= out@);
    out
}

/// The strings of `parts` joined by `sep`.
pub fn join_strings(parts: &Vec<String>, sep: &str) -> (r: String)
    ensures
        r@ == join(views(parts@), sep@),
{
    let mut out = String::new();
    let ghost vs = views(parts@);
    let mut i: usize = 0;
    while i < parts.len()
        invariant
            vs == views(parts@),
            vs.len() == parts@.len(),
            i <= parts.len(),
            out@ == join(vs.take(i as int), sep@),
        decreases parts.len() - i,
    {
        assert(vs.take(i + 1).drop_last() =~= vs.take(i as int));
        assert(vs.take(i + 1).last() == parts@[i as int]@);
        if i != 0 {
            out.append(sep);
        }
        out.append(parts[i].as_str());
        i = i + 1;
    }
    assert(vs.take(parts.len() as int) =~= vs);
    out
}

/// The decimal representation of `n`.
pub fn decimal_string(n: usize) -> (r: String)
    ensures
        r@ == decimal(n as nat),
    decreases n,
{
    let d = n % 10;
    let c = if d == 0 {
        '0'
    } else if d == 1 {
        '1'
    } else if d == 2 {
        '2'
    } else if d == 3 {
        '3'
    } else if d == 4 {
        '4'
    } else if d == 5 {
        '5'
    } else if d == 6 {
        '6'
    } else if d == 7 {
        '7'
    } else if d == 8 {
        '8'
    } else {
        '9'
    };
    assert(c == digit_char(d as nat));
    if n < 10 {
        let mut r = String::new();
        push_char(&mut r, c);
        r
    } else {
        let mut r = decimal_string(n / 10);
        push_char(&mut r, c);
        r
    }
}

} // verus!
