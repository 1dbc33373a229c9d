//! Text: the few string operations the rest of the library is stated over.
use vstd::prelude::*;

verus! {

/// `String::push` appends one character.
pub assume_specification[ String::push ](s: &mut String, ch: char)
    ensures
        final(s)@ == old(s)@.push(ch),
;

/// The characters of `s`, in order.
pub fn chars_of(s: &str) -> (out: Vec<char>)
    ensures
        out@ == s@,
{
    let mut out: Vec<char> = Vec::new();
    for c in it: s.chars()
        invariant
            out@ == s@.take(it.index()),
            it.seq() == s@,
    {
        out.push(c);
    }
    assert(s@.take(s@.len() as int) =~= s@);
    out
}

/// The text made of `chars[from..to]`.
pub fn text_of(chars: &Vec<char>, from: usize, to: usize) -> (out: String)
    requires
        from <= to <= chars@.len(),
    ensures
        out@ == chars@.subrange(from as int, to as int),
{
    let mut out = String::new();
    let mut i: usize = from;
    while i < to
        invariant
            from <= i <= to <= chars@.len(),
            out@ == chars@.subrange(from as int, i as int),
        decreases to - i,
    {
        out.push(chars[i]);
        i = i + 1;
        assert(chars@.subrange(from as int, i as int) =~= chars@.subrange(
            from as int,
            i - 1,
        ).push(chars@[i - 1]));
    }
    out
}

/// Whether two texts are the same.
pub fn same_text(a: &str, b: &str) -> (same: bool)
    ensures
        same == (a@ == b@),
{
    let x = chars_of(a);
    let y = chars_of(b);
    if x.len() != y.len() {
        return false;
    }
    let mut i: usize = 0;
    while i < x.len()
        invariant
            i <= x@.len(),
            x@.len() == y@.len(),
            x@ == a@,
            y@ == b@,
            forall|j: int| 0 <= j < i ==> x@[j] == y@[j],
        decreases x@.len() - i,
    {
        if x[i] != y[i] {
            return false;
        }
        i = i + 1;
    }
    assert(x@ =~= y@);
    true
}

/// Dictionary order by code point, which is the order of the texts' UTF-8 bytes.
pub open spec fn text_lt(a: Seq<char>, b: Seq<char>) -> bool
    decreases b.len(),
{
    if b.len() == 0 {
        false
    } else if a.len() == 0 {
        true
    } else if a[0] != b[0] {
        (a[0] as int) < (b[0] as int)
    } else {
        text_lt(a.drop_first(), b.drop_first())
    }
}

/// No text comes before itself.
pub proof fn lemma_text_lt_irreflexive(a: Seq<char>)
    ensures
        !text_lt(a, a),
    decreases a.len(),
{
    if a.len() > 0 {
        lemma_text_lt_irreflexive(a.drop_first());
    }
}

/// Dictionary order is transitive.
pub proof fn lemma_text_lt_transitive(a: Seq<char>, b: Seq<char>, c: Seq<char>)
    requires
        text_lt(a, b),
        text_lt(b, c),
    ensures
        text_lt(a, c),
    decreases b.len(),
{
    if a.len() > 0 && a[0] == b[0] && b[0] == c[0] {
        lemma_text_lt_transitive(a.drop_first(), b.drop_first(), c.drop_first());
    }
}

/// Of two different texts one comes before the other.
pub proof fn lemma_text_lt_total(a: Seq<char>, b: Seq<char>)
    ensures
        text_lt(a, b) || a == b || text_lt(b, a),
    decreases b.len(),
{
    if a.len() > 0 && b.len() > 0 {
        if a[0] == b[0] {
            lemma_text_lt_total(a.drop_first(), b.drop_first());
            if a.drop_first() == b.drop_first() {
                assert(a =~= seq![a[0]] + a.drop_first());
                assert(b =~= seq![b[0]] + b.drop_first());
            }
        }
    } else if a.len() == 0 && b.len() == 0 {
        assert(a =~= b);
    }
}

/// Whether `a` comes before `b` in dictionary order.
pub fn text_before(a: &str, b: &str) -> (before: bool)
    ensures
        before == text_lt(a@, b@),
{
    let x = chars_of(a);
    let y = chars_of(b);
    let mut i: usize = 0;
    assert(x@.skip(0) =~= x@ && y@.skip(0) =~= y@);
    while i < x.len() && i < y.len()
        invariant
            i <= x@.len(),
            i <= y@.len(),
            x@ == a@,
            y@ == b@,
            text_lt(a@, b@) == text_lt(x@.skip(i as int), y@.skip(i as int)),
        decreases x@.len() - i,
    {
        if x[i] != y[i] {
            let p: char = x[i];
            let q: char = y[i];
            return p < q;
        }
        assert(x@.skip(i as int).drop_first() =~= x@.skip(i + 1));
        assert(y@.skip(i as int).drop_first() =~= y@.skip(i + 1));
        i = i + 1;
    }
    i < y.len()
}

/// `s` without the slashes at its two ends.
pub open spec fn without_outer_slashes(s: Seq<char>) -> Seq<char>
    decreases s.len(),
{
    if s.len() > 0 && s[0] == '/' {
        without_outer_slashes(s.drop_first())
    } else if s.len() > 0 && s.last() == '/' {
        without_outer_slashes(s.drop_last())
    } else {
        s
    }
}

/// Drops every slash at the start and at the end of `s`.
pub fn trim_slashes(s: &str) -> (out: String)
    ensures
        out@ == without_outer_slashes(s@),
{
    let chars = chars_of(s);
    let mut from: usize = 0;
    let mut to: usize = chars.len();
    assert(chars@.subrange(0, to as int) =~= s@);
    while from < to && chars[from] == '/'
        invariant
            from <= to <= chars@.len(),
            without_outer_slashes(s@) == without_outer_slashes(
                chars@.subrange(from as int, to as int),
            ),
        decreases to - from,
    {
        assert(chars@.subrange(from as int, to as int).drop_first() =~= chars@.subrange(
            from + 1,
            to as int,
        ));
        from = from + 1;
    }
    while from < to && chars[to - 1] == '/'
        invariant
            from <= to <= chars@.len(),
            from < to ==> chars@[from as int] != '/',
            without_outer_slashes(s@) == without_outer_slashes(
                chars@.subrange(from as int, to as int),
            ),
        decreases to - from,
    {
        assert(chars@.subrange(from as int, to as int).drop_last() =~= chars@.subrange(
            from as int,
            to - 1,
        ));
        to = to - 1;
    }
    text_of(&chars, from, to)
}

/// Whether `part` stands somewhere in `whole`.
pub open spec fn occurs_in(part: Seq<char>, whole: Seq<char>) -> bool {
    exists|i: int|
        0 <= i <= whole.len() - part.len() && #[trigger] whole.subrange(i, i + part.len()) == part
}

/// Whether `whole` holds `"://"`.
pub fn has_scheme_separator(whole: &str) -> (found: bool)
    ensures
        found == occurs_in("://"@, whole@),
{
    proof {
        reveal_strlit("://");
    }
    let chars = chars_of(whole);
    let mut i: usize = 0;
    while i < chars.len() && chars.len() - i >= 3
        invariant
            i <= chars@.len(),
            chars@ == whole@,
            "://"@ == seq![':', '/', '/'],
            forall|j: int|
                0 <= j < i && j <= whole@.len() - 3 ==> #[trigger] whole@.subrange(j, j + 3)
                    != "://"@,
        decreases chars@.len() - i,
    {
        let ghost window = whole@.subrange(i as int, i + 3);
        if chars[i] == ':' && chars[i + 1] == '/' && chars[i + 2] == '/' {
            assert(window =~= "://"@);
            return true;
        }
        assert(window[0] == chars@[i as int] && window[1] == chars@[i + 1] && window[2] == chars@[i
            + 2]);
        i = i + 1;
    }
    false
}

/// What is left of `whole` behind `prefix`, where it starts with `prefix`.
pub open spec fn after_prefix(whole: Seq<char>, prefix: Seq<char>) -> Option<Seq<char>> {
    if prefix.is_prefix_of(whole) {
        Some(whole.skip(prefix.len() as int))
    } else {
        None
    }
}

/// Takes `prefix` off the front of `whole`.
pub fn strip_prefix(whole: &str, prefix: &str) -> (rest: Option<String>)
    ensures
        rest.deep_view() == after_prefix(whole@, prefix@),
{
    let w = chars_of(whole);
    let p = chars_of(prefix);
    if p.len() > w.len() {
        return None;
    }
    let mut i: usize = 0;
    while i < p.len()
        invariant
            i <= p@.len() <= w@.len(),
            w@ == whole@,
            p@ == prefix@,
            forall|j: int| 0 <= j < i ==> p@[j] == w@[j],
        decreases p@.len() - i,
    {
        if p[i] != w[i] {
            assert(whole@.subrange(0, p@.len() as int)[i as int] == w@[i as int]);
            return None;
        }
        i = i + 1;
    }
    assert(whole@.subrange(0, p@.len() as int) =~= prefix@);
    let rest = text_of(&w, p.len(), w.len());
    assert(rest@ =~= whole@.skip(prefix@.len() as int));
    Some(rest)
}

/// `s` without the line ends (carriage returns and line feeds) it closes with.
pub open spec fn without_line_end(s: Seq<char>) -> Seq<char>
    decreases s.len(),
{
    if s.len() > 0 && (s.last() == '\r' || s.last() == '\n') {
        without_line_end(s.drop_last())
    } else {
        s
    }
}

/// Drops every carriage return and line feed at the end of `s`.
pub fn trim_line_end(s: &str) -> (out: String)
    ensures
        out@ == without_line_end(s@),
{
    let chars = chars_of(s);
    let mut to: usize = chars.len();
    assert(chars@.subrange(0, to as int) =~= s@);
    while to > 0 && (chars[to - 1] == '\r' || chars[to - 1] == '\n')
        invariant
            to <= chars@.len(),
            without_line_end(s@) == without_line_end(chars@.subrange(0, to as int)),
        decreases to,
    {
        assert(chars@.subrange(0, to as int).drop_last() =~= chars@.subrange(0, to - 1));
        to = to - 1;
    }
    text_of(&chars, 0, to)
}

/// Trimming takes slashes off the two ends and nothing else, and leaves none there.
pub proof fn lemma_trimming_takes_outer_slashes_only(s: Seq<char>)
    ensures
        exists|from: int, to: int|
            #![trigger s.subrange(from, to)]
            {
                &&& 0 <= from <= to <= s.len()
                &&& without_outer_slashes(s) == s.subrange(from, to)
                &&& forall|i: int| 0 <= i < s.len() && !(from <= i < to) ==> #[trigger] s[i] == '/'
                &&& from < to ==> s[from] != '/' && s[to - 1] != '/'
            },
{
    let (from, to) = lemma_trimmed_between(s);
    assert(without_outer_slashes(s) == s.subrange(from, to));
}

proof fn lemma_trimmed_between(s: Seq<char>) -> (bounds: (int, int))
    ensures
        0 <= bounds.0 <= bounds.1 <= s.len(),
        without_outer_slashes(s) == s.subrange(bounds.0, bounds.1),
        forall|i: int| 0 <= i < bounds.0 ==> #[trigger] s[i] == '/',
        forall|i: int| bounds.1 <= i < s.len() ==> #[trigger] s[i] == '/',
        bounds.0 < bounds.1 ==> s[bounds.0] != '/' && s[bounds.1 - 1] != '/',
    decreases s.len(),
{
    if s.len() > 0 && s[0] == '/' {
        let rest = s.drop_first();
        let (from, to) = lemma_trimmed_between(rest);
        assert(rest.subrange(from, to) =~= s.subrange(from + 1, to + 1));
        assert forall|i: int| 0 <= i < from + 1 implies #[trigger] s[i] == '/' by {
            if i > 0 {
                assert(rest[i - 1] == s[i]);
            }
        }
        assert forall|i: int| to + 1 <= i < s.len() implies #[trigger] s[i] == '/' by {
            assert(rest[i - 1] == s[i]);
        }
        (from + 1, to + 1)
    } else if s.len() > 0 && s.last() == '/' {
        let rest = s.drop_last();
        let (from, to) = lemma_trimmed_between(rest);
        assert(rest.subrange(from, to) =~= s.subrange(from, to));
        assert forall|i: int| 0 <= i < from implies #[trigger] s[i] == '/' by {
            assert(rest[i] == s[i]);
        }
        assert forall|i: int| to <= i < s.len() implies #[trigger] s[i] == '/' by {
            if i < s.len() - 1 {
                assert(rest[i] == s[i]);
            }
        }
        (from, to)
    } else {
        assert(s.subrange(0, s.len() as int) =~= s);
        (0, s.len() as int)
    }
}

/// Trimming takes carriage returns and line feeds off the end and nothing else, and leaves none
/// there.
pub proof fn lemma_trimming_takes_line_ends_only(s: Seq<char>)
    ensures
        ({
            let trimmed = without_line_end(s);
            &&& trimmed.len() <= s.len()
            &&& forall|i: int| 0 <= i < trimmed.len() ==> #[trigger] trimmed[i] == s[i]
            &&& forall|i: int|
                trimmed.len() <= i < s.len() ==> #[trigger] s[i] == '\r' || s[i] == '\n'
            &&& trimmed.len() > 0 ==> trimmed.last() != '\r' && trimmed.last() != '\n'
        }),
    decreases s.len(),
{
    if s.len() > 0 && (s.last() == '\r' || s.last() == '\n') {
        let rest = s.drop_last();
        lemma_trimming_takes_line_ends_only(rest);
        let trimmed = without_line_end(s);
        assert forall|i: int| trimmed.len() <= i < s.len() implies #[trigger] s[i] == '\r' || s[i]
            == '\n' by {
            if i < s.len() - 1 {
                assert(rest[i] == s[i]);
            }
        }
    }
}

/// A part occurs in a text exactly where the text can be written as something, the part, and
/// something more.
pub proof fn lemma_occurring_is_standing_between(part: Seq<char>, whole: Seq<char>)
    ensures
        occurs_in(part, whole) <==> exists|before: Seq<char>, after: Seq<char>|
            #[trigger] (before + part + after) == whole,
{
    if occurs_in(part, whole) {
        let i = choose|i: int|
            0 <= i <= whole.len() - part.len() && #[trigger] whole.subrange(i, i + part.len())
                == part;
        assert(whole.take(i) + part + whole.skip(i + part.len()) =~= whole);
    }
    if exists|before: Seq<char>, after: Seq<char>| #[trigger] (before + part + after) == whole {
        let (before, after) = choose|before: Seq<char>, after: Seq<char>|
            #[trigger] (before + part + after) == whole;
        let i = before.len() as int;
        assert(whole.subrange(i, i + part.len()) =~= part);
    }
}

/// What is left behind a prefix makes the text again when the prefix is put before it; and
/// nothing is left exactly where no text can be made so.
pub proof fn lemma_prefix_and_rest_make_the_text(
    whole: Seq<char>,
    prefix: Seq<char>,
    rest: Seq<char>,
)
    ensures
        after_prefix(whole, prefix) == Some(rest) <==> whole == prefix + rest,
        after_prefix(whole, prefix) is None ==> whole != prefix + rest,
{
    if after_prefix(whole, prefix) == Some(rest) {
        assert(whole =~= prefix + rest);
    }
    if whole == prefix + rest {
        assert(prefix =~= whole.subrange(0, prefix.len() as int));
        assert(rest =~= whole.skip(prefix.len() as int));
    }
}

/// One text comes before another exactly where it is a proper beginning of it, or has the smaller
/// character at the first place where they differ.
pub proof fn lemma_dictionary_order(a: Seq<char>, b: Seq<char>)
    ensures
        text_lt(a, b) <==> exists|i: int|
            #![trigger a.take(i)]
            {
                &&& 0 <= i <= a.len()
                &&& i < b.len()
                &&& a.take(i) == b.take(i)
                &&& i < a.len() ==> (a[i] as int) < (b[i] as int)
            },
    decreases b.len(),
{
    let at = |i: int|
        {
            &&& 0 <= i <= a.len()
            &&& i < b.len()
            &&& a.take(i) == b.take(i)
            &&& i < a.len() ==> (a[i] as int) < (b[i] as int)
        };
    if b.len() > 0 && (a.len() == 0 || a[0] != b[0]) {
        assert(a.take(0) =~= b.take(0));
        if exists|i: int| #![trigger a.take(i)] at(i) {
            let i = choose|i: int| #![trigger a.take(i)] at(i);
            if i > 0 {
                assert(a.take(i)[0] == a[0] && b.take(i)[0] == b[0]);
            }
        }
    } else if b.len() > 0 {
        let x = a.drop_first();
        let y = b.drop_first();
        lemma_dictionary_order(x, y);
        if text_lt(x, y) {
            let j = choose|j: int|
                #![trigger x.take(j)]
                {
                    &&& 0 <= j <= x.len()
                    &&& j < y.len()
                    &&& x.take(j) == y.take(j)
                    &&& j < x.len() ==> (x[j] as int) < (y[j] as int)
                };
            assert(a.take(j + 1) =~= seq![a[0]] + x.take(j));
            assert(b.take(j + 1) =~= seq![b[0]] + y.take(j));
            assert(at(j + 1));
        }
        if exists|i: int| #![trigger a.take(i)] at(i) {
            let i = choose|i: int| #![trigger a.take(i)] at(i);
            assert(i > 0);
            assert(x.take(i - 1) =~= a.take(i).drop_first());
            assert(y.take(i - 1) =~= b.take(i).drop_first());
        }
    }
}

} // verus!
