//! Text building blocks: characters, trimming, case folding, ordering, and
//! the notation of whole numbers.
//!
//! Contracts speak of a string by its characters (`Seq<char>`).
use vstd::prelude::*;
use vstd::string::*;

verus! {

/// `String::push` appends the given character to the end of the string.
pub assume_specification[ String::push ](s: &mut String, c: char)
    ensures
        final(s)@ == old(s)@.push(c),
;

/// The characters with the Unicode `White_Space` property.
pub open spec fn is_white(c: char) -> bool {
    ||| '\u{9}' <= c <= '\u{d}'
    ||| c == ' '
    ||| c == '\u{85}'
    ||| c == '\u{a0}'
    ||| c == '\u{1680}'
    ||| '\u{2000}' <= c <= '\u{200a}'
    ||| c == '\u{2028}'
    ||| c == '\u{2029}'
    ||| c == '\u{202f}'
    ||| c == '\u{205f}'
    ||| c == '\u{3000}'
}

/// Nothing but white space (the empty text is blank).
pub open spec fn is_blank(s: Seq<char>) -> bool {
    forall|i: int| 0 <= i < s.len() ==> is_white(#[trigger] s[i])
}

/// `s` without its leading white space.
pub open spec fn trimmed_start(s: Seq<char>) -> Seq<char>
    decreases s.len(),
{
    if s.len() > 0 && is_white(s[0]) {
        trimmed_start(s.drop_first())
    } else {
        s
    }
}

/// `s` without its trailing white space.
pub open spec fn trimmed_end(s: Seq<char>) -> Seq<char>
    decreases s.len(),
{
    if s.len() > 0 && is_white(s.last()) {
        trimmed_end(s.drop_last())
    } else {
        s
    }
}

/// `s` without leading and trailing white space.
pub open spec fn trimmed(s: Seq<char>) -> Seq<char> {
    trimmed_end(trimmed_start(s))
}

/// The ASCII lower-case form of a character; other characters are kept.
pub open spec fn lower_char(c: char) -> char {
    if 'A' <= c <= 'Z' {
        ((c as u32 + 32) as u8) as char
    } else {
        c
    }
}

/// Every character in its ASCII lower-case form.
pub open spec fn lowered(s: Seq<char>) -> Seq<char> {
    s.map_values(|c: char| lower_char(c))
}

/// From position `i` on, `a` sorts before `b` (character by character, a
/// proper prefix first).
pub open spec fn sorts_before_from(a: Seq<char>, b: Seq<char>, i: int) -> bool
    decreases a.len() - i,
{
    if i < 0 || i >= b.len() {
        false
    } else if i >= a.len() {
        true
    } else {
        a[i] < b[i] || (a[i] == b[i] && sorts_before_from(a, b, i + 1))
    }
}

/// The order of texts: by the first differing character, a proper prefix
/// before what it begins.
pub open spec fn sorts_before(a: Seq<char>, b: Seq<char>) -> bool {
    sorts_before_from(a, b, 0)
}

/// The digit character of `d` (for `0 <= d <= 9`).
pub open spec fn digit_char(d: int) -> char {
    ((48 + d) as u8) as char
}

/// The decimal notation of a natural number, without leading zeros.
pub open spec fn nat_text(n: nat) -> Seq<char>
    decreases n,
{
    if n < 10 {
        seq![digit_char(n as int)]
    } else {
        nat_text(n / 10).push(digit_char((n % 10) as int))
    }
}

/// `n` zeros.
pub open spec fn zeros(n: nat) -> Seq<char> {
    Seq::new(n, |i: int| '0')
}

/// `s` with zeros in front, up to `width` characters.
pub open spec fn zero_padded(s: Seq<char>, width: nat) -> Seq<char> {
    if s.len() >= width {
        s
    } else {
        zeros((width - s.len()) as nat) + s
    }
}

/// The texts one after the other, with `sep` between neighbours.
pub open spec fn joined(parts: Seq<Seq<char>>, sep: Seq<char>) -> Seq<char>
    decreases parts.len(),
{
    if parts.len() == 0 {
        Seq::empty()
    } else if parts.len() == 1 {
        parts[0]
    } else {
        joined(parts.drop_last(), sep) + sep + parts.last()
    }
}

/// The views of a sequence of strings.
pub open spec fn texts(parts: Seq<String>) -> Seq<Seq<char>> {
    parts.map_values(|s: String| s@)
}

/// The view of an optional string.
pub open spec fn opt_text(s: Option<String>) -> Option<Seq<char>> {
    match s {
        Some(t) => Some(t@),
        None => None,
    }
}

/// The view of an optional reference to a string.
pub open spec fn opt_ref_text(s: Option<&String>) -> Option<Seq<char>> {
    match s {
        Some(t) => Some(t@),
        None => None,
    }
}

/// The view of an optional string slice.
pub open spec fn opt_str(s: Option<&str>) -> Option<Seq<char>> {
    match s {
        Some(t) => Some(t@),
        None => None,
    }
}

/// The text, or the empty text where there is none.
pub open spec fn or_empty(s: Option<Seq<char>>) -> Seq<char> {
    match s {
        Some(t) => t,
        None => Seq::empty(),
    }
}

/// The text before the first `sep`, or all of it.
pub open spec fn up_to(s: Seq<char>, sep: char) -> Seq<char>
    decreases s.len(),
{
    if s.len() == 0 || s[0] == sep {
        Seq::empty()
    } else {
        seq![s[0]] + up_to(s.drop_first(), sep)
    }
}

/// Whether `c` is white space.
pub fn white(c: char) -> (r: bool)
    ensures
        r == is_white(c),
{
    ('\u{9}' <= c && c <= '\u{d}') || c == ' ' || c == '\u{85}' || c == '\u{a0}' || c == '\u{1680}'
        || ('\u{2000}' <= c && c <= '\u{200a}') || c == '\u{2028}' || c == '\u{2029}'
        || c == '\u{202f}' || c == '\u{205f}' || c == '\u{3000}'
}

/// The characters of `s`.
pub fn chars_of(s: &str) -> (r: Vec<char>)
    ensures
        r@ == s@,
{
    let mut out: Vec<char> = Vec::new();
    for c in it: s.chars()
        invariant
            out@ == it.seq().take(it.index()),
            it.seq() == s@,
    {
        out.push(c);
    }
    out
}

/// The text made of the characters `from..to`.
pub fn text_of(chars: &Vec<char>, from: usize, to: usize) -> (r: String)
    requires
        from <= to <= chars.len(),
    ensures
        r@ == chars@.subrange(from as int, to as int),
{
    let mut out: String = String::new();
    let mut i: usize = from;
    while i < to
        invariant
            from <= i <= to <= chars.len(),
            out@ == chars@.subrange(from as int, i as int),
        decreases to - i,
    {
        out.push(chars[i]);
        i = i + 1;
    }
    out
}

/// Whether `s` holds nothing but white space.
pub fn blank(s: &str) -> (r: bool)
    ensures
        r == is_blank(s@),
{
    for c in it: s.chars()
        invariant
            it.seq() == s@,
            forall|i: int| 0 <= i < it.index() ==> is_white(s@[i]),
    {
        if !white(c) {
            assert(!is_white(s@[it.index() as int]));
            return false;
        }
    }
    true
}

/// Whether two texts are the same.
pub fn same(a: &str, b: &str) -> (r: bool)
    ensures
        r == (a@ == b@),
{
    a.to_owned() == b.to_owned()
}

/// Whether an optional text is present and equal to `b`.
pub fn same_opt(a: &Option<String>, b: &str) -> (r: bool)
    ensures
        r == (opt_text(*a) == Some(b@)),
{
    match a {
        Some(t) => same(t.as_str(), b),
        None => false,
    }
}

/// A copy of an optional text.
pub fn copy_opt(a: &Option<String>) -> (r: Option<String>)
    ensures
        opt_text(r) == opt_text(*a),
        r == *a,
{
    match a {
        Some(t) => Some(t.clone()),
        None => None,
    }
}

/// `s` without leading and trailing white space.
pub fn trim(s: &str) -> (r: String)
    ensures
        r@ == trimmed(s@),
{
    let chars: Vec<char> = chars_of(s);
    let mut from: usize = 0;
    assert(s@.skip(0) =~= s@);
    while from < chars.len() && white(chars[from])
        invariant
            from <= chars.len(),
            chars@ == s@,
            trimmed_start(s@) == trimmed_start(s@.skip(from as int)),
        decreases chars.len() - from,
    {
        assert(s@.skip(from as int).drop_first() =~= s@.skip(from as int + 1));
        from = from + 1;
    }
    assert(trimmed_start(s@) == s@.skip(from as int));
    let mut to: usize = chars.len();
    while to > from && white(chars[to - 1])
        invariant
            from <= to <= chars.len(),
            chars@ == s@,
            trimmed_end(s@.skip(from as int)) == trimmed_end(s@.subrange(from as int, to as int)),
        decreases to,
    {
        assert(s@.subrange(from as int, to as int).drop_last() =~= s@.subrange(
            from as int,
            to as int - 1,
        ));
        to = to - 1;
    }
    assert(trimmed_end(s@.subrange(from as int, to as int)) == s@.subrange(from as int, to as int));
    text_of(&chars, from, to)
}

/// The ASCII lower-case form of `s`.
pub fn lowercase(s: &str) -> (r: String)
    ensures
        r@ == lowered(s@),
{
    let mut out: String = String::new();
    for c in it: s.chars()
        invariant
            it.seq() == s@,
            out@ == lowered(s@.take(it.index() as int)),
    {
        let l: char = if 'A' <= c && c <= 'Z' {
            ((c as u32 + 32) as u8) as char
        } else {
            c
        };
        out.push(l);
        assert(lowered(s@.take(it.index() as int + 1)) =~= lowered(s@.take(it.index() as int)).push(
            lower_char(c),
        ));
    }
    assert(s@.take(s@.len() as int) =~= s@);
    out
}

/// Whether `a` sorts before `b`.
pub fn before(a: &str, b: &str) -> (r: bool)
    ensures
        r == sorts_before(a@, b@),
{
    let x: Vec<char> = chars_of(a);
    let y: Vec<char> = chars_of(b);
    let mut i: usize = 0;
    while i < x.len() && i < y.len()
        invariant
            x@ == a@,
            y@ == b@,
            i <= x.len(),
            i <= y.len(),
            sorts_before(a@, b@) == sorts_before_from(a@, b@, i as int),
        decreases x.len() - i,
    {
        if x[i] < y[i] {
            return true;
        }
        if x[i] != y[i] {
            return false;
        }
        i = i + 1;
    }
    i < y.len()
}

/// Nothing sorts before itself.
pub proof fn sorts_before_irreflexive(a: Seq<char>, i: int)
    ensures
        !sorts_before_from(a, a, i),
    decreases a.len() - i,
{
    if 0 <= i < a.len() {
        sorts_before_irreflexive(a, i + 1);
    }
}

/// Chaining of the order from a common position.
pub proof fn sorts_before_transitive(a: Seq<char>, b: Seq<char>, c: Seq<char>, i: int)
    requires
        sorts_before_from(a, b, i),
        sorts_before_from(b, c, i),
    ensures
        sorts_before_from(a, c, i),
    decreases a.len() - i,
{
    if 0 <= i < a.len() && i < b.len() && i < c.len() && a[i] == b[i] && b[i] == c[i] {
        sorts_before_transitive(a, b, c, i + 1);
    }
}

/// Of two different texts one sorts before the other.
pub proof fn sorts_before_total(a: Seq<char>, b: Seq<char>, i: int)
    requires
        0 <= i,
        i <= a.len(),
        i <= b.len(),
        forall|j: int| 0 <= j < i ==> a[j] == b[j],
    ensures
        a == b || sorts_before_from(a, b, i) || sorts_before_from(b, a, i),
    decreases a.len() - i,
{
    if i < a.len() && i < b.len() && a[i] == b[i] {
        sorts_before_total(a, b, i + 1);
    } else if i == a.len() && i == b.len() {
        assert(a =~= b);
    }
}

/// The decimal notation of `n`.
pub fn number_text(n: u128) -> (r: String)
    ensures
        r@ == nat_text(n as nat),
    decreases n,
{
    let d: char = ((48 + (n % 10) as u8) as u8) as char;
    let mut head: String = if n < 10 {
        String::new()
    } else {
        number_text(n / 10)
    };
    head.push(d);
    proof {
        if n < 10 {
            assert(head@ =~= seq![digit_char(n as int)]);
        }
    }
    head
}

/// `n` zeros.
pub fn zeros_text(n: usize) -> (r: String)
    ensures
        r@ == zeros(n as nat),
{
    let mut out: String = String::new();
    let mut i: usize = 0;
    while i < n
        invariant
            i <= n,
            out@ == zeros(i as nat),
        decreases n - i,
    {
        out.push('0');
        i = i + 1;
    }
    out
}

/// `n` in decimal notation with zeros in front, up to `width` characters.
pub fn padded_number(n: u128, width: usize) -> (r: String)
    ensures
        r@ == zero_padded(nat_text(n as nat), width as nat),
{
    let digits: String = number_text(n);
    let len: usize = digits.as_str().unicode_len();
    if len >= width {
        digits
    } else {
        let mut out: String = zeros_text(width - len);
        out.append(digits.as_str());
        out
    }
}

/// The texts one after the other, with `sep` between neighbours.
pub fn join(parts: &Vec<String>, sep: &str) -> (r: String)
    ensures
        r@ == joined(texts(parts@), sep@),
{
    let mut out: String = String::new();
    let mut i: usize = 0;
    while i < parts.len()
        invariant
            i <= parts.len(),
            out@ == joined(texts(parts@).take(i as int), sep@),
        decreases parts.len() - i,
    {
        let ghost now = texts(parts@).take(i as int + 1);
        assert(now.drop_last() =~= texts(parts@).take(i as int));
        if i > 0 {
            out.append(sep);
        }
        out.append(parts[i].as_str());
        proof {
            if i == 0 {
                assert(out@ =~= parts@[0]@);
            }
        }
        i = i + 1;
    }
    assert(texts(parts@).take(parts@.len() as int) =~= texts(parts@));
    out
}

/// The text before the first `sep`, or all of it.
pub fn before_char(s: &str, sep: char) -> (r: String)
    ensures
        r@ == up_to(s@, sep),
{
    let chars: Vec<char> = chars_of(s);
    let mut i: usize = 0;
    assert(s@.skip(0) =~= s@);
    assert(s@.take(0) + up_to(s@.skip(0), sep) =~= up_to(s@, sep));
    while i < chars.len() && chars[i] != sep
        invariant
            i <= chars.len(),
            chars@ == s@,
            up_to(s@, sep) == s@.take(i as int) + up_to(s@.skip(i as int), sep),
        decreases chars.len() - i,
    {
        assert(s@.skip(i as int).drop_first() =~= s@.skip(i as int + 1));
        assert(s@.take(i as int) + (seq![s@[i as int]] + up_to(s@.skip(i as int + 1), sep))
            =~= s@.take(i as int + 1) + up_to(s@.skip(i as int + 1), sep));
        i = i + 1;
    }
    assert(up_to(s@, sep) =~= s@.take(i as int));
    assert(s@.subrange(0, i as int) =~= s@.take(i as int));
    text_of(&chars, 0, i)
}

/// Whether `s` begins with `prefix`.
pub fn starts_with(s: &str, prefix: &str) -> (r: bool)
    ensures
        r == prefix@.is_prefix_of(s@),
{
    let a: Vec<char> = chars_of(s);
    let b: Vec<char> = chars_of(prefix);
    if b.len() > a.len() {
        return false;
    }
    let head: String = text_of(&a, 0, b.len());
    assert(a@.subrange(0, b@.len() as int) =~= a@.take(b@.len() as int));
    proof {
        if prefix@.is_prefix_of(s@) {
            assert(a@.take(b@.len() as int) =~= prefix@);
        } else if a@.take(b@.len() as int) == prefix@ {
            assert(prefix@ =~= s@.subrange(0, prefix@.len() as int));
        }
    }
    same(head.as_str(), prefix)
}

/// Whether `s` is among the texts.
pub fn among(parts: &Vec<String>, s: &str) -> (r: bool)
    ensures
        r == texts(parts@).contains(s@),
{
    let mut i: usize = 0;
    while i < parts.len()
        invariant
            i <= parts.len(),
            forall|j: int| 0 <= j < i ==> parts@[j]@ != s@,
        decreases parts.len() - i,
    {
        if same(parts[i].as_str(), s) {
            assert(texts(parts@)[i as int] == s@);
            return true;
        }
        i = i + 1;
    }
    assert(!texts(parts@).contains(s@)) by {
        assert forall|j: int| 0 <= j < texts(parts@).len() implies texts(parts@)[j] != s@ by {
            assert(parts@[j]@ != s@);
        }
    }
    false
}

/// The outcome of a validation against the fault that it looks for.
pub open spec fn reports(r: Result<(), String>, fault: Option<Seq<char>>) -> bool {
    match r {
        Ok(_) => fault is None,
        Err(e) => fault == Some(e@),
    }
}

/// `head`, a name, and `tail`.
pub fn phrase(head: &str, name: &str, tail: &str) -> (r: String)
    ensures
        r@ == head@ + name@ + tail@,
{
    let mut out: String = head.to_string();
    out.append(name);
    out.append(tail);
    out
}

/// `more` appended to `seen`, each text once.
pub open spec fn noted(seen: Seq<Seq<char>>, more: Seq<Seq<char>>) -> Seq<Seq<char>>
    decreases more.len(),
{
    if more.len() == 0 {
        seen
    } else {
        let before = noted(seen, more.drop_last());
        if before.contains(more.last()) {
            before
        } else {
            before.push(more.last())
        }
    }
}

/// Noting two lists one after the other notes their concatenation.
pub proof fn noted_joins(seen: Seq<Seq<char>>, a: Seq<Seq<char>>, b: Seq<Seq<char>>)
    ensures
        noted(seen, a + b) == noted(noted(seen, a), b),
    decreases b.len(),
{
    if b.len() == 0 {
        assert(a + b =~= a);
    } else {
        assert((a + b).drop_last() =~= a + b.drop_last());
        noted_joins(seen, a, b.drop_last());
    }
}

/// `all[p]` is where the `i`-th of the noted texts first occurs: only texts
/// noted before it stand before `p`.
pub open spec fn introduced(
    all: Seq<Seq<char>>,
    noted: Seq<Seq<char>>,
    i: int,
    p: int,
) -> bool {
    0 <= p < all.len() && all[p] == noted[i] && forall|q: int|
        0 <= q < p ==> noted.take(i).contains(#[trigger] all[q])
}

/// The `i`-th of the noted texts stands where it first occurs.
pub open spec fn has_first(all: Seq<Seq<char>>, noted: Seq<Seq<char>>, i: int) -> bool {
    exists|p: int| introduced(all, noted, i, p)
}

/// Noting keeps the first occurrence of each text, in order: nothing twice,
/// nothing else, and each where it first occurs.
pub proof fn noted_are_first_occurrences(all: Seq<Seq<char>>)
    ensures
        ({
            let r = noted(Seq::empty(), all);
            &&& forall|i: int, j: int| 0 <= i < j < r.len() ==> r[i] != r[j]
            &&& forall|x: Seq<char>| #[trigger] r.contains(x) <==> all.contains(x)
            &&& forall|i: int| 0 <= i < r.len() ==> #[trigger] has_first(all, r, i)
        }),
    decreases all.len(),
{
    let r = noted(Seq::empty(), all);
    if all.len() > 0 {
        let before = all.drop_last();
        let was = noted(Seq::empty(), before);
        noted_are_first_occurrences(before);
        let n = all.len() - 1;
        let last = all.last();
        assert forall|x: Seq<char>| #[trigger] all.contains(x) <==> before.contains(x) || x == last by {
            if before.contains(x) {
                let k = before.index_of(x);
                assert(all[k] == x);
            }
            assert(all[n] == last);
            if all.contains(x) && x != last {
                let k = all.index_of(x);
                assert(before[k] == x);
            }
        }
        if was.contains(last) {
            assert(before.contains(last));
        } else {
            assert forall|x: Seq<char>| #[trigger] r.contains(x) <==> was.contains(x) || x == last by {
                if was.contains(x) {
                    let k = was.index_of(x);
                    assert(r[k] == x);
                }
                assert(r[was.len() as int] == last);
                if r.contains(x) && x != last {
                    let k = r.index_of(x);
                    assert(was[k] == x);
                }
            }
        }
        assert forall|i: int| 0 <= i < r.len() implies #[trigger] has_first(all, r, i) by {
            if i < was.len() {
                assert(has_first(before, was, i));
                let p = choose|p: int| introduced(before, was, i, p);
                assert(r.take(i) =~= was.take(i));
                assert forall|q: int| 0 <= q < p implies r.take(i).contains(#[trigger] all[q]) by {
                    assert(before[q] == all[q]);
                    assert(was.take(i).contains(before[q]));
                }
                assert(introduced(all, r, i, p));
            } else {
                assert(r.take(i) =~= was);
                assert forall|q: int| 0 <= q < n implies r.take(i).contains(#[trigger] all[q]) by {
                    assert(before[q] == all[q]);
                    assert(before.contains(before[q]));
                }
                assert(introduced(all, r, i, n));
            }
        }
    }
}

/// Trimming takes off the white space at both ends, all of it and nothing
/// else.
pub proof fn trimming_takes_the_ends_off(a: Seq<char>, s: Seq<char>, b: Seq<char>)
    requires
        is_blank(a),
        is_blank(b),
        s.len() > 0,
        !is_white(s[0]),
        !is_white(s.last()),
    ensures
        trimmed(a + s + b) == s,
{
    let whole = a + s + b;
    trimmed_start_is(whole, a.len() as int);
    assert(whole.skip(a.len() as int) =~= s + b);
    trimmed_end_is(s + b, s.len() as int);
    assert((s + b).take(s.len() as int) =~= s);
}

proof fn trimmed_start_is(s: Seq<char>, k: int)
    requires
        0 <= k <= s.len(),
        forall|i: int| 0 <= i < k ==> is_white(#[trigger] s[i]),
        k < s.len() ==> !is_white(s[k]),
    ensures
        trimmed_start(s) == s.skip(k),
    decreases k,
{
    if k > 0 {
        let t = s.drop_first();
        assert forall|i: int| 0 <= i < k - 1 implies is_white(#[trigger] t[i]) by {
            assert(t[i] == s[i + 1]);
        }
        assert(is_white(s[0]));
        trimmed_start_is(t, k - 1);
        assert(t.skip(k - 1) =~= s.skip(k));
    } else {
        assert(s.skip(0) =~= s);
    }
}

proof fn trimmed_end_is(s: Seq<char>, k: int)
    requires
        0 < k <= s.len(),
        forall|i: int| k <= i < s.len() ==> is_white(#[trigger] s[i]),
        !is_white(s[k - 1]),
    ensures
        trimmed_end(s) == s.take(k),
    decreases s.len(),
{
    if k < s.len() {
        assert(is_white(s[s.len() - 1]));
        trimmed_end_is(s.drop_last(), k);
        assert(s.drop_last().take(k) =~= s.take(k));
    } else {
        assert(s.take(k) =~= s);
    }
}

/// White space among the ASCII characters: the blank, and tab to carriage
/// return; beyond them the no-break space is, a letter is not.
pub proof fn ascii_white_space(c: char)
    requires
        c <= '\u{7f}',
    ensures
        is_white(c) <==> c == ' ' || c == '\t' || c == '\n' || c == '\r' || c == '\u{b}' || c
            == '\u{c}',
        is_white('\u{a0}'),
        is_white('\u{2003}'),
        is_white('\u{3000}'),
{
}

/// Lower-casing keeps the length, moves the ASCII capitals by the distance of
/// the two alphabets, and leaves every other character as it is.
pub proof fn lowering_moves_capitals_only(s: Seq<char>, i: int)
    requires
        0 <= i < s.len(),
    ensures
        lowered(s).len() == s.len(),
        'A' <= s[i] <= 'Z' ==> lowered(s)[i] as u32 == s[i] as u32 + 32,
        !('A' <= s[i] <= 'Z') ==> lowered(s)[i] == s[i],
{
}

/// The order of texts is decided by the first place where they differ: the
/// lower character goes first, and a text goes before what it begins.
pub proof fn order_is_decided_at_the_first_difference(a: Seq<char>, b: Seq<char>, i: int)
    requires
        0 <= i <= a.len(),
        i <= b.len(),
        forall|j: int| 0 <= j < i ==> a[j] == b[j],
    ensures
        i < a.len() && i < b.len() && a[i] < b[i] ==> sorts_before(a, b) && !sorts_before(b, a),
        i == a.len() && i < b.len() ==> sorts_before(a, b) && !sorts_before(b, a),
        i == a.len() && i == b.len() ==> !sorts_before(a, b) && !sorts_before(b, a),
{
    order_from(a, b, 0, i);
}

proof fn order_from(a: Seq<char>, b: Seq<char>, k: int, i: int)
    requires
        0 <= k <= i <= a.len(),
        i <= b.len(),
        forall|j: int| 0 <= j < i ==> a[j] == b[j],
    ensures
        sorts_before_from(a, b, k) == sorts_before_from(a, b, i),
        sorts_before_from(b, a, k) == sorts_before_from(b, a, i),
    decreases i - k,
{
    if k < i {
        order_from(a, b, k + 1, i);
    }
}

/// Joining puts the texts one after the other with the separator between
/// neighbours: one text is itself, and a list joined to a non-empty list is
/// both with the separator between them.
pub proof fn joining_separates_neighbours(
    a: Seq<Seq<char>>,
    b: Seq<Seq<char>>,
    sep: Seq<char>,
)
    ensures
        joined(Seq::empty(), sep).len() == 0,
        a.len() == 1 ==> joined(a, sep) == a[0],
        a.len() > 0 && b.len() > 0 ==> joined(a + b, sep) == joined(a, sep) + sep + joined(b, sep),
    decreases b.len(),
{
    if a.len() > 0 && b.len() > 0 {
        let both = a + b;
        assert(both.drop_last() =~= a + b.drop_last());
        assert(both.last() == b.last());
        if b.len() > 1 {
            joining_separates_neighbours(a, b.drop_last(), sep);
            assert(joined(a, sep) + sep + joined(b.drop_last(), sep) + sep + b.last() =~= joined(
                a,
                sep,
            ) + sep + (joined(b.drop_last(), sep) + sep + b.last()));
        } else {
            assert(both.drop_last() =~= a);
        }
    }
}

/// Of a blank text nothing is left by trimming.
pub proof fn blank_texts_trim_to_nothing(s: Seq<char>)
    requires
        is_blank(s),
    ensures
        trimmed(s).len() == 0,
{
    trimmed_start_is(s, s.len() as int);
}

/// The text before a separator: what stands in front of the first one, or
/// all of a text without one.
pub proof fn separators_end_the_first_part(head: Seq<char>, sep: char, tail: Seq<char>)
    requires
        !head.contains(sep),
    ensures
        up_to(head + seq![sep] + tail, sep) == head,
        up_to(head, sep) == head,
    decreases head.len(),
{
    let all = head + seq![sep] + tail;
    if head.len() > 0 {
        let rest = head.drop_first();
        assert(head.contains(head[0]));
        assert(!rest.contains(sep)) by {
            if rest.contains(sep) {
                let k = rest.index_of(sep);
                assert(head[k + 1] == sep);
            }
        }
        separators_end_the_first_part(rest, sep, tail);
        assert(all.drop_first() =~= rest + seq![sep] + tail);
        assert(seq![head[0]] + rest =~= head);
    } else {
        assert(all[0] == sep);
    }
}

} // verus!
