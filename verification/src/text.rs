//! Character and line utilities shared by the differ, the slugger and the
//! renderers: newline-inclusive line splitting, string building and search.
use vstd::prelude::*;

verus! {

pub assume_specification[ String::push ](s: &mut String, ch: char)
    ensures
        final(s)@ == old(s)@.push(ch),
;

/// The views of a sequence of strings.
pub open spec fn views_of(ls: Seq<String>) -> Seq<Seq<char>> {
    ls.map_values(|s: String| s@)
}

/// A line that carries its terminating newline.
pub open spec fn line_done(l: Seq<char>) -> bool {
    l.len() > 0 && l.last() == '\n'
}

/// A non-empty line with no newline anywhere before its final character.
pub open spec fn is_text_line(l: Seq<char>) -> bool {
    l.len() > 0 && forall|j: int| 0 <= j < l.len() - 1 ==> l[j] != '\n'
}

/// A complete line: newline-terminated and without interior newlines.
pub open spec fn full_line(l: Seq<char>) -> bool {
    is_text_line(l) && line_done(l)
}

/// Text that is empty or ends in a newline, so that appending to it starts a
/// fresh line.
pub open spec fn text_closed(s: Seq<char>) -> bool {
    s.len() == 0 || s.last() == '\n'
}

/// Newline-inclusive line splitting: every character of `s` lands in exactly
/// one line, each newline ends its line, and a final fragment without a
/// newline forms the last line.
pub open spec fn split_lines_spec(s: Seq<char>) -> Seq<Seq<char>>
    decreases s.len(),
{
    if s.len() == 0 {
        Seq::empty()
    } else {
        let prev = split_lines_spec(s.drop_last());
        let c = s.last();
        if prev.len() == 0 || line_done(prev.last()) {
            prev.push(seq![c])
        } else {
            prev.update(prev.len() - 1, prev.last().push(c))
        }
    }
}

/// The concatenation of a sequence of lines.
pub open spec fn concat_all(ls: Seq<Seq<char>>) -> Seq<char>
    decreases ls.len(),
{
    if ls.len() == 0 {
        Seq::empty()
    } else {
        concat_all(ls.drop_last()) + ls.last()
    }
}

/// The shape every split result has: text lines throughout, every line but
/// the last newline-terminated.
pub open spec fn lines_wf(ls: Seq<Seq<char>>) -> bool {
    &&& forall|i: int| 0 <= i < ls.len() ==> is_text_line(#[trigger] ls[i])
    &&& forall|i: int| 0 <= i < ls.len() - 1 ==> line_done(#[trigger] ls[i])
}

/// Splitting loses no characters: the lines concatenate back to the text.
pub proof fn lemma_split_concat(s: Seq<char>)
    ensures
        concat_all(split_lines_spec(s)) == s,
    decreases s.len(),
{
    if s.len() == 0 {
        assert(concat_all(split_lines_spec(s)) =~= s);
    } else {
        lemma_split_concat(s.drop_last());
        let prev = split_lines_spec(s.drop_last());
        let c = s.last();
        if prev.len() == 0 || line_done(prev.last()) {
            let r = prev.push(seq![c]);
            assert(r.drop_last() =~= prev);
            assert(concat_all(r) =~= s);
        } else {
            let r = prev.update(prev.len() - 1, prev.last().push(c));
            assert(r.drop_last() =~= prev.drop_last());
            assert(r.last() == prev.last().push(c));
            assert(concat_all(r) =~= concat_all(prev.drop_last()) + prev.last().push(c));
            assert(concat_all(prev.drop_last()) + prev.last().push(c) =~= (concat_all(
                prev.drop_last(),
            ) + prev.last()).push(c));
            assert(concat_all(prev) == concat_all(prev.drop_last()) + prev.last());
            assert((s.drop_last()).push(c) =~= s);
        }
    }
}

/// Every split is well-shaped, and it ends cleanly exactly when the text does.
pub proof fn lemma_split_shape(s: Seq<char>)
    ensures
        lines_wf(split_lines_spec(s)),
        text_closed(s) <==> (split_lines_spec(s).len() == 0 || line_done(
            split_lines_spec(s).last(),
        )),
        s.len() == 0 <==> split_lines_spec(s).len() == 0,
    decreases s.len(),
{
    if s.len() == 0 {
    } else {
        lemma_split_shape(s.drop_last());
        let prev = split_lines_spec(s.drop_last());
        let c = s.last();
        if prev.len() == 0 || line_done(prev.last()) {
            let r = prev.push(seq![c]);
            assert(is_text_line(seq![c]));
            assert(forall|i: int| 0 <= i < r.len() - 1 ==> #[trigger] r[i] == prev[i]);
            assert(line_done(r.last()) <==> c == '\n');
        } else {
            let r = prev.update(prev.len() - 1, prev.last().push(c));
            assert(r.last() == prev.last().push(c));
            assert(is_text_line(prev.last()) && !line_done(prev.last()));
            assert(forall|j: int|
                0 <= j < prev.last().len() ==> #[trigger] prev.last().push(c)[j] == prev.last()[j]);
            assert(is_text_line(r.last()));
            assert(line_done(r.last()) <==> c == '\n');
        }
    }
}

/// Appending one complete line to closed text splits as that text's lines
/// followed by the new line.
pub proof fn lemma_split_append_line(s: Seq<char>, l: Seq<char>)
    requires
        text_closed(s),
        full_line(l),
    ensures
        split_lines_spec(s + l) == split_lines_spec(s).push(l),
{
    lemma_split_shape(s);
    if l.len() == 1 {
        assert((s + l).drop_last() =~= s);
        assert((s + l).last() == '\n');
        assert(split_lines_spec(s + l) =~= split_lines_spec(s).push(l)) by {
            assert(seq![(s + l).last()] =~= l);
        }
    } else {
        let body = l.drop_last();
        lemma_split_append_partial(s, body);
        assert((s + l).drop_last() =~= s + body);
        let prev = split_lines_spec(s + body);
        assert(prev == split_lines_spec(s).push(body));
        assert(prev.len() > 0 && prev.last() == body);
        assert(!line_done(body));
        assert(split_lines_spec(s + l) == prev.update(prev.len() - 1, body.push((s + l).last())));
        assert(body.push((s + l).last()) =~= l);
        assert(prev.update(prev.len() - 1, l) =~= split_lines_spec(s).push(l));
    }
}

/// Appending a non-empty newline-free fragment to closed text splits as the
/// text's lines followed by that fragment.
pub proof fn lemma_split_append_partial(s: Seq<char>, l: Seq<char>)
    requires
        text_closed(s),
        l.len() > 0,
        forall|j: int| 0 <= j < l.len() ==> l[j] != '\n',
    ensures
        split_lines_spec(s + l) == split_lines_spec(s).push(l),
    decreases l.len(),
{
    lemma_split_shape(s);
    if l.len() == 1 {
        assert((s + l).drop_last() =~= s);
        assert(split_lines_spec(s + l) =~= split_lines_spec(s).push(l)) by {
            assert(seq![(s + l).last()] =~= l);
        }
    } else {
        let body = l.drop_last();
        lemma_split_append_partial(s, body);
        assert((s + l).drop_last() =~= s + body);
        let prev = split_lines_spec(s + body);
        assert(prev.len() > 0 && prev.last() == body);
        assert(!line_done(body));
        assert(split_lines_spec(s + l) == prev.update(prev.len() - 1, body.push((s + l).last())));
        assert(body.push((s + l).last()) =~= l);
        assert(prev.update(prev.len() - 1, l) =~= split_lines_spec(s).push(l));
    }
}

/// Splitting inverts concatenation on sequences of complete lines.
pub proof fn lemma_split_of_concat(ls: Seq<Seq<char>>)
    requires
        forall|i: int| 0 <= i < ls.len() ==> full_line(#[trigger] ls[i]),
    ensures
        split_lines_spec(concat_all(ls)) == ls,
        text_closed(concat_all(ls)),
    decreases ls.len(),
{
    if ls.len() == 0 {
        assert(split_lines_spec(concat_all(ls)) =~= ls);
    } else {
        lemma_split_of_concat(ls.drop_last());
        let front = concat_all(ls.drop_last());
        lemma_split_append_line(front, ls.last());
        assert(split_lines_spec(front).push(ls.last()) =~= ls);
        assert(concat_all(ls).len() > 0 && concat_all(ls).last() == '\n') by {
            assert(line_done(ls.last()));
        }
    }
}

/// Splits a text into its newline-inclusive lines.
pub fn split_lines(s: &str) -> (r: Vec<String>)
    ensures
        views_of(r@) == split_lines_spec(s@),
{
    let n: usize = s.unicode_len();
    let mut r: Vec<String> = Vec::new();
    let mut cur: String = String::new();
    let mut i: usize = 0;
    while i < n
        invariant
            i <= n,
            n == s@.len(),
            forall|j: int| 0 <= j < cur@.len() ==> cur@[j] != '\n',
            cur@.len() == 0 ==> views_of(r@) == split_lines_spec(s@.subrange(0, i as int)),
            cur@.len() > 0 ==> views_of(r@).push(cur@) == split_lines_spec(
                s@.subrange(0, i as int),
            ),
            forall|j: int| 0 <= j < r@.len() ==> line_done(#[trigger] views_of(r@)[j]),
        decreases n - i,
    {
        let ghost prefix = s@.subrange(0, i as int);
        let ghost old_r = r@;
        let ghost old_cur = cur@;
        let c = s.get_char(i);
        proof {
            assert(s@.subrange(0, i + 1).drop_last() =~= prefix);
            assert(s@.subrange(0, i + 1).last() == c);
        }
        cur.push(c);
        if c == '\n' {
            r.push(cur);
            cur = String::new();
        }
        i = i + 1;
        proof {
            let now = s@.subrange(0, i as int);
            let prev = split_lines_spec(prefix);
            assert(now.drop_last() == prefix && now.last() == c);
            if old_cur.len() == 0 {
                assert(prev == views_of(old_r));
                assert(prev.len() == 0 || line_done(prev.last())) by {
                    if prev.len() > 0 {
                        assert(line_done(views_of(old_r)[old_r.len() - 1]));
                    }
                }
                assert(split_lines_spec(now) == prev.push(seq![c]));
                assert(old_cur.push(c) =~= seq![c]);
                if c == '\n' {
                    assert(views_of(r@) =~= views_of(old_r).push(seq![c]));
                } else {
                    assert(views_of(r@).push(cur@) =~= prev.push(seq![c]));
                }
            } else {
                assert(views_of(old_r).push(old_cur) == prev);
                assert(prev.len() > 0 && prev.last() == old_cur);
                assert(!line_done(old_cur));
                assert(split_lines_spec(now) == prev.update(prev.len() - 1, old_cur.push(c)));
                assert(prev.update(prev.len() - 1, old_cur.push(c)) =~= views_of(old_r).push(
                    old_cur.push(c),
                ));
                if c == '\n' {
                    assert(views_of(r@) =~= views_of(old_r).push(old_cur.push(c)));
                } else {
                    assert(views_of(r@).push(cur@) =~= views_of(old_r).push(old_cur.push(c)));
                }
            }
            assert(forall|j: int| 0 <= j < r@.len() ==> line_done(#[trigger] views_of(r@)[j])) by {
                assert(forall|j: int|
                    0 <= j < old_r.len() ==> #[trigger] views_of(r@)[j] == views_of(old_r)[j]);
            }
        }
    }
    proof {
        assert(s@.subrange(0, n as int) =~= s@);
    }
    if !cur.as_str().is_empty() {
        r.push(cur);
        proof {
            assert(views_of(r@) =~= views_of(r@.drop_last()).push(r@.last()@));
        }
    }
    r
}

/// Compares two string slices character for character.
pub fn str_eq(a: &str, b: &str) -> (r: bool)
    ensures
        r <==> a@ == b@,
{
    let na: usize = a.unicode_len();
    let nb: usize = b.unicode_len();
    if na != nb {
        return false;
    }
    let mut i: usize = 0;
    while i < na
        invariant
            i <= na,
            na == a@.len(),
            na == b@.len(),
            forall|j: int| 0 <= j < i ==> a@[j] == b@[j],
        decreases na - i,
    {
        if a.get_char(i) != b.get_char(i) {
            return false;
        }
        i = i + 1;
    }
    proof {
        assert(a@ =~= b@);
    }
    true
}

/// Whether `sub` occurs in `s` starting at index `at`.
pub open spec fn occurs_at(s: Seq<char>, sub: Seq<char>, at: int) -> bool {
    &&& 0 <= at
    &&& at + sub.len() <= s.len()
    &&& s.subrange(at, at + sub.len()) == sub
}

/// Whether `sub` occurs anywhere in `s`.
pub open spec fn contains_sub_spec(s: Seq<char>, sub: Seq<char>) -> bool {
    exists|at: int| occurs_at(s, sub, at)
}

/// Substring search by direct comparison at every offset.
pub fn contains_sub(s: &str, sub: &str) -> (r: bool)
    ensures
        r <==> contains_sub_spec(s@, sub@),
{
    let n: usize = s.unicode_len();
    let m: usize = sub.unicode_len();
    if m > n {
        proof {
            assert(forall|at: int| !occurs_at(s@, sub@, at));
        }
        return false;
    }
    let mut at: usize = 0;
    while at <= n - m
        invariant
            m <= n,
            n == s@.len(),
            m == sub@.len(),
            at <= n - m + 1,
            forall|k: int| 0 <= k < at ==> !occurs_at(s@, sub@, k),
        decreases n - m + 1 - at,
    {
        let mut j: usize = 0;
        let mut hit: bool = true;
        while j < m
            invariant
                at + m <= n,
                n == s@.len(),
                m == sub@.len(),
                j <= m,
                hit ==> (forall|k: int| 0 <= k < j ==> s@[at + k] == sub@[k]),
                !hit ==> (exists|k: int| 0 <= k < m && s@[at + k] != sub@[k]),
            decreases m - j,
        {
            if s.get_char(at + j) != sub.get_char(j) {
                proof {
                    assert(0 <= j < m && s@[at + j] != sub@[j as int]);
                }
                hit = false;
                j = m;
            } else {
                j = j + 1;
            }
        }
        if hit {
            proof {
                assert(s@.subrange(at as int, at + sub@.len()) =~= sub@);
                assert(occurs_at(s@, sub@, at as int));
            }
            return true;
        }
        proof {
            assert(!occurs_at(s@, sub@, at as int)) by {
                if occurs_at(s@, sub@, at as int) {
                    let k = choose|k: int| 0 <= k < m && s@[at + k] != sub@[k];
                    assert(s@.subrange(at as int, at + sub@.len())[k] == s@[at + k]);
                }
            }
        }
        at = at + 1;
    }
    proof {
        assert(forall|k: int| occurs_at(s@, sub@, k) ==> 0 <= k <= n - m);
    }
    false
}

/// Duplicates a vector of strings.
pub fn clone_strings(v: &Vec<String>) -> (r: Vec<String>)
    ensures
        r@ == v@,
{
    let mut r: Vec<String> = Vec::new();
    let mut i: usize = 0;
    while i < v.len()
        invariant
            i <= v@.len(),
            r@ == v@.subrange(0, i as int),
        decreases v@.len() - i,
    {
        r.push(v[i].clone());
        i = i + 1;
        proof {
            assert(v@.subrange(0, i as int) =~= v@.subrange(0, i - 1).push(v@[i - 1]));
        }
    }
    proof {
        assert(v@.subrange(0, v@.len() as int) =~= v@);
    }
    r
}

/// Joins a directory and a name with one separator.
pub fn join_path(dir: &str, name: &str) -> (r: String)
    ensures
        r@ == dir@ + seq!['/'] + name@,
{
    let mut r: String = String::new();
    r.append(dir);
    r.append("/");
    r.append(name);
    proof {
        reveal_strlit("/");
        assert(r@ =~= dir@ + seq!['/'] + name@);
    }
    r
}

/// Whether a character counts as alphanumeric; what `char::is_alphanumeric`
/// decides, a function of the character alone.
pub uninterp spec fn is_alnum_char(c: char) -> bool;

/// Relies on char::is_alphanumeric: true for every character in one of the
/// letter or number general categories, so in particular true on ASCII
/// letters and digits and false on the rest of the ASCII range.
#[verifier::external_body]
pub(crate) fn is_alnum(c: char) -> (r: bool)
    ensures
        r == is_alnum_char(c),
        (48 <= c as u32 <= 57) || (65 <= c as u32 <= 90) || (97 <= c as u32 <= 122) ==> r,
        (((c as u32) < 128) && !((48 <= c as u32 <= 57) || (65 <= c as u32 <= 90) || (97 <= c
            as u32 <= 122))) ==> !r,
{
    c.is_alphanumeric()
}

/// Lower-cases an ASCII letter and leaves every other character unchanged.
pub open spec fn ascii_lower_char(c: char) -> char {
    if 65 <= c as u32 && c as u32 <= 90 {
        ((c as u32) + 32) as char
    } else {
        c
    }
}

/// Executable ASCII lower-casing of one character.
pub fn to_lower_char(c: char) -> (r: char)
    ensures
        r == ascii_lower_char(c),
{
    let u: u32 = c as u32;
    if 65 <= u && u <= 90 {
        ((u as u8) + 32) as char
    } else {
        c
    }
}

} // verus!
