use vstd::prelude::*;
use vstd::string::*;
use vstd::utf8::{decode_utf8, valid_utf8};

verus! {

/// `String::push`: appends `c`.
#[verifier::external_body]
pub(crate) fn push_char(s: &mut String, c: char)
    ensures
        final(s)@ == old(s)@.push(c),
{
    s.push(c);
}

/// Content equality of two string slices.
pub fn str_eq(a: &str, b: &str) -> (res: bool)
    ensures
        res == (a@ == b@),
{
    let n = a.unicode_len();
    if n != b.unicode_len() {
        return false;
    }
    let mut i: usize = 0;
    while i < n
        invariant
            n == a@.len(),
            n == b@.len(),
            i <= n,
            forall|j: int| 0 <= j < i ==> a@[j] == b@[j],
        decreases n - i,
    {
        if a.get_char(i) != b.get_char(i) {
            return false;
        }
        i = i + 1;
    }
    assert(a@ =~= b@);
    true
}

/// Whether `s` begins with `prefix`.
pub fn starts_with(s: &str, prefix: &str) -> (res: bool)
    ensures
        res == prefix@.is_prefix_of(s@),
{
    let n = prefix.unicode_len();
    if n > s.unicode_len() {
        return false;
    }
    let mut i: usize = 0;
    while i < n
        invariant
            n == prefix@.len(),
            n <= s@.len(),
            i <= n,
            forall|j: int| 0 <= j < i ==> prefix@[j] == s@[j],
        decreases n - i,
    {
        if prefix.get_char(i) != s.get_char(i) {
            return false;
        }
        i = i + 1;
    }
    true
}

/// Whether `s` ends with `suffix`.
pub fn ends_with(s: &str, suffix: &str) -> (res: bool)
    ensures
        res == (suffix@.len() <= s@.len() && s@.subrange(s@.len() - suffix@.len(), s@.len() as int)
            == suffix@),
{
    let n = suffix.unicode_len();
    let m = s.unicode_len();
    if n > m {
        return false;
    }
    let off = m - n;
    let mut i: usize = 0;
    while i < n
        invariant
            n == suffix@.len(),
            m == s@.len(),
            off == m - n,
            i <= n,
            forall|j: int| 0 <= j < i ==> suffix@[j] == s@[off + j],
        decreases n - i,
    {
        if suffix.get_char(i) != s.get_char(off + i) {
            assert(s@.subrange(off as int, m as int)[i as int] == s@[off + i]);
            return false;
        }
        i = i + 1;
    }
    assert(s@.subrange(off as int, m as int) =~= suffix@);
    true
}

/// Whether `pat` occurs in `s` at position `at`.
pub open spec fn occurs_at(s: Seq<char>, pat: Seq<char>, at: int) -> bool {
    0 <= at && at + pat.len() <= s.len() && s.subrange(at, at + pat.len()) == pat
}

/// Whether `pat` occurs somewhere in `s`.
pub open spec fn occurs_in(s: Seq<char>, pat: Seq<char>) -> bool {
    exists|at: int| occurs_at(s, pat, at)
}

/// Substring search.
pub fn contains(s: &str, pat: &str) -> (res: bool)
    ensures
        res == occurs_in(s@, pat@),
{
    let n = pat.unicode_len();
    let m = s.unicode_len();
    if n > m {
        assert forall|at: int| !occurs_at(s@, pat@, at) by {}
        return false;
    }
    if n == 0 {
        assert(s@.subrange(0, 0) =~= pat@);
        assert(occurs_at(s@, pat@, 0));
        return true;
    }
    let mut at: usize = 0;
    while at <= m - n
        invariant
            n == pat@.len(),
            m == s@.len(),
            0 < n <= m,
            at <= m - n + 1,
            forall|k: int| 0 <= k < at ==> !occurs_at(s@, pat@, k),
        decreases m - n + 1 - at,
    {
        let mut i: usize = 0;
        let mut matched = true;
        while i < n
            invariant
                n == pat@.len(),
                m == s@.len(),
                at + n <= m,
                i <= n,
                matched ==> forall|j: int| 0 <= j < i ==> pat@[j] == s@[at + j],
                !matched ==> !occurs_at(s@, pat@, at as int),
            decreases n - i,
        {
            if pat.get_char(i) != s.get_char(at + i) {
                matched = false;
                assert(s@.subrange(at as int, at + n)[i as int] == s@[at + i]);
            }
            i = i + 1;
        }
        if matched {
            assert(s@.subrange(at as int, at + n) =~= pat@);
            assert(occurs_at(s@, pat@, at as int));
            return true;
        }
        at = at + 1;
    }
    assert forall|k: int| !occurs_at(s@, pat@, k) by {
        if 0 <= k < at {
        }
    }
    false
}

/// The decimal digits of `n`, most significant first, without leading zeros
/// (a single `0` for zero).
pub open spec fn decimal(n: nat) -> Seq<char>
    decreases n,
{
    if n < 10 {
        seq![digit_char(n)]
    } else {
        decimal(n / 10).push(digit_char(n % 10))
    }
}

pub open spec fn digit_char(d: nat) -> char {
    ((d + 48) as u32) as char
}

/// The decimal representation of `n`, as the `Display` of an unsigned integer writes it.
pub fn decimal_string(n: u64) -> (res: String)
    ensures
        res@ == decimal(n as nat),
    decreases n,
{
    let digit = n % 10;
    let c = char_of_digit(digit);
    if n < 10 {
        let mut s = String::new();
        push_char(&mut s, c);
        assert(s@ =~= seq![digit_char(n as nat)]);
        s
    } else {
        let mut s = decimal_string(n / 10);
        push_char(&mut s, c);
        s
    }
}

fn char_of_digit(d: u64) -> (c: char)
    requires
        d < 10,
    ensures
        c == digit_char(d as nat),
{
    match d {
        0 => '0',
        1 => '1',
        2 => '2',
        3 => '3',
        4 => '4',
        5 => '5',
        6 => '6',
        7 => '7',
        8 => '8',
        _ => '9',
    }
}

/// Whether `c` has the Unicode `White_Space` property, which is what
/// `char::is_whitespace` reports: tab, line feed, vertical tab, form feed,
/// carriage return and space; next line (U+0085) and no-break space
/// (U+00A0); the Ogham space mark (U+1680); the spaces U+2000 to U+200A;
/// the line and paragraph separators (U+2028, U+2029); the narrow no-break
/// space (U+202F); the medium mathematical space (U+205F); and the
/// ideographic space (U+3000).
pub open spec fn white_space(c: char) -> bool {
    let n = c as int;
    ||| 0x09 <= n <= 0x0D
    ||| n == 0x20
    ||| n == 0x85
    ||| n == 0xA0
    ||| n == 0x1680
    ||| 0x2000 <= n <= 0x200A
    ||| n == 0x2028
    ||| n == 0x2029
    ||| n == 0x202F
    ||| n == 0x205F
    ||| n == 0x3000
}

/// `char::is_whitespace`: whether `c` has the Unicode `White_Space` property.
pub fn is_whitespace(c: char) -> (res: bool)
    ensures
        res == white_space(c),
{
    let n = c as u32;
    (0x09 <= n && n <= 0x0D) || n == 0x20 || n == 0x85 || n == 0xA0 || n == 0x1680 || (0x2000 <= n && n
        <= 0x200A) || n == 0x2028 || n == 0x2029 || n == 0x202F || n == 0x205F || n == 0x3000
}

/// What `String::from_utf8_lossy` makes of `bytes`.
pub uninterp spec fn lossy_utf8(bytes: Seq<u8>) -> Seq<char>;

/// `String::from_utf8_lossy`: decodes `bytes`, putting U+FFFD in place of
/// each invalid sequence. The contract states the result for valid UTF-8
/// (the decoded text) and names it otherwise; where the replacement
/// characters go is not spelled out.
#[verifier::external_body]
pub(crate) fn utf8_lossy(bytes: &[u8]) -> (res: String)
    ensures
        res@ == lossy_utf8(bytes@),
        valid_utf8(bytes@) ==> res@ == decode_utf8(bytes@),
{
    String::from_utf8_lossy(bytes).into_owned()
}

/// `s` without its trailing white space.
pub open spec fn trim_end(s: Seq<char>) -> Seq<char>
    decreases s.len(),
{
    if s.len() > 0 && white_space(s.last()) {
        trim_end(s.drop_last())
    } else {
        s
    }
}

proof fn lemma_trim_end_at(s: Seq<char>, k: int)
    requires
        0 <= k <= s.len(),
        forall|j: int| k <= j < s.len() ==> white_space(#[trigger] s[j]),
    ensures
        trim_end(s) == trim_end(s.take(k)),
    decreases s.len() - k,
{
    if k < s.len() {
        assert(s.drop_last() =~= s.take(s.len() - 1));
        let t = s.take(s.len() - 1);
        assert forall|j: int| k <= j < t.len() implies white_space(#[trigger] t[j]) by {
            assert(t[j] == s[j]);
        }
        lemma_trim_end_at(t, k);
        assert(t.take(k) =~= s.take(k));
    } else {
        assert(s.take(k) =~= s);
    }
}

/// `str::trim_end`: drops trailing white space.
pub fn trim_end_string(s: &str) -> (res: String)
    ensures
        res@ == trim_end(s@),
{
    let n = s.unicode_len();
    let mut k = n;
    while k > 0 && is_whitespace(s.get_char(k - 1))
        invariant
            n == s@.len(),
            k <= n,
            forall|j: int| k <= j < n ==> white_space(#[trigger] s@[j]),
        decreases k,
    {
        k = k - 1;
    }
    proof {
        lemma_trim_end_at(s@, k as int);
        if k > 0 {
            assert(s@.take(k as int).last() == s@[k - 1]);
        }
    }
    let mut out = String::new();
    let mut i: usize = 0;
    while i < k
        invariant
            n == s@.len(),
            k <= n,
            i <= k,
            out@ == s@.take(i as int),
        decreases k - i,
    {
        let c = s.get_char(i);
        push_char(&mut out, c);
        i = i + 1;
        assert(out@ =~= s@.take(i as int));
    }
    out
}

pub open spec fn is_digit(c: char) -> bool {
    '0' <= c <= '9'
}

pub open spec fn all_digits(s: Seq<char>) -> bool {
    forall|i: int| 0 <= i < s.len() ==> is_digit(#[trigger] s[i])
}

/// The value of a string of decimal digits.
pub open spec fn digits_value(s: Seq<char>) -> nat
    decreases s.len(),
{
    if s.len() == 0 {
        0
    } else {
        (digits_value(s.drop_last()) * 10 + (s.last() as u32 - 48)) as nat
    }
}

/// What `str::parse::<u32>` accepts: an optional `+` and then at least one
/// decimal digit, with a value that fits in 32 bits.
pub open spec fn parse_u32(s: Seq<char>) -> Option<nat> {
    let body = if s.len() > 0 && s[0] == '+' { s.drop_first() } else { s };
    if body.len() > 0 && all_digits(body) && digits_value(body) <= u32::MAX {
        Some(digits_value(body))
    } else {
        None
    }
}

/// A longer digit string is worth at least as much as its prefix.
proof fn lemma_digits_value_grows(s: Seq<char>, k: int)
    requires
        0 <= k <= s.len(),
        all_digits(s),
    ensures
        digits_value(s.take(k)) <= digits_value(s),
    decreases s.len() - k,
{
    if k < s.len() {
        let t = s.take(s.len() - 1);
        assert(s.drop_last() =~= t);
        assert(all_digits(t)) by {
            assert forall|i: int| 0 <= i < t.len() implies is_digit(#[trigger] t[i]) by {
                assert(t[i] == s[i]);
            }
        }
        lemma_digits_value_grows(t, k);
        assert(t.take(k) =~= s.take(k));
    } else {
        assert(s.take(k) =~= s);
    }
}

/// `str::parse::<u32>` of the text of `s` from char position `start` on.
pub fn parse_u32_from(s: &str, start: usize) -> (res: Option<u32>)
    requires
        start <= s@.len(),
    ensures
        match res {
            Some(n) => parse_u32(s@.skip(start as int)) == Some(n as nat),
            None => parse_u32(s@.skip(start as int)) is None,
        },
{
    let ghost t = s@.skip(start as int);
    let n = s.unicode_len();
    let mut b = start;
    if b < n && s.get_char(b) == '+' {
        b = b + 1;
    }
    let ghost body = s@.skip(b as int);
    assert(body =~= if t.len() > 0 && t[0] == '+' { t.drop_first() } else { t });
    if b == n {
        return None;
    }
    let mut value: u64 = 0;
    let mut i = b;
    while i < n
        invariant
            n == s@.len(),
            b <= i <= n,
            b < n,
            body == s@.skip(b as int),
            t == s@.skip(start as int),
            body == if t.len() > 0 && t[0] == '+' { t.drop_first() } else { t },
            all_digits(body.take(i - b)),
            value == digits_value(body.take(i - b)),
            value <= u32::MAX,
        decreases n - i,
    {
        let c = s.get_char(i);
        assert(body[i - b] == c);
        if !('0' <= c && c <= '9') {
            assert(!all_digits(body));
            return None;
        }
        assert(body.take(i - b + 1).drop_last() =~= body.take(i - b));
        let next = value * 10 + (c as u64 - 48);
        assert(all_digits(body.take(i - b + 1))) by {
            assert forall|j: int| 0 <= j < i - b + 1 implies is_digit(#[trigger] body.take(i - b + 1)[j]) by {
                if j < i - b {
                    assert(body.take(i - b + 1)[j] == body.take(i - b)[j]);
                }
            }
        }
        if next > 0xffff_ffff {
            proof {
                if all_digits(body) {
                    lemma_digits_value_grows(body, i - b + 1);
                }
            }
            return None;
        }
        value = next;
        i = i + 1;
    }
    assert(body.take(n - b) =~= body);
    Some(value as u32)
}

/// `trim_end` keeps a prefix of its input and leaves no white space at the end.
pub proof fn lemma_trim_end_clean(s: Seq<char>)
    ensures
        trim_end(s).is_prefix_of(s),
        trim_end(s).len() > 0 ==> !white_space(trim_end(s).last()),
        forall|j: int| trim_end(s).len() <= j < s.len() ==> white_space(#[trigger] s[j]),
    decreases s.len(),
{
    if s.len() > 0 && white_space(s.last()) {
        lemma_trim_end_clean(s.drop_last());
        assert forall|j: int| trim_end(s).len() <= j < s.len() implies white_space(#[trigger] s[j]) by {
            if j < s.len() - 1 {
                assert(s[j] == s.drop_last()[j]);
            }
        }
    }
}

proof fn lemma_decimal_digits(n: nat)
    ensures
        decimal(n).len() > 0,
        all_digits(decimal(n)),
        digits_value(decimal(n)) == n,
        decimal(n)[0] != '+',
    decreases n,
{
    if n >= 10 {
        lemma_decimal_digits(n / 10);
        let d = decimal(n / 10);
        let e = d.push(digit_char(n % 10));
        assert(e.drop_last() =~= d);
        assert forall|i: int| 0 <= i < e.len() implies is_digit(#[trigger] e[i]) by {
            if i < d.len() {
                assert(e[i] == d[i]);
            }
        }
        assert(e[0] == d[0]);
        assert(digit_char(n % 10) as u32 == n % 10 + 48);
        assert(n == (n / 10) * 10 + n % 10) by (nonlinear_arith);
        assert(digits_value(e) == digits_value(d) * 10 + (e.last() as u32 - 48));
        assert(e.last() == digit_char(n % 10));
        assert(digits_value(e) == n);
        assert(decimal(n) == e);
    } else {
        assert(digit_char(n) as u32 == n + 48);
        let e = decimal(n);
        assert(e == seq![digit_char(n)]);
        assert(e.drop_last() =~= Seq::<char>::empty());
        assert(digits_value(Seq::<char>::empty()) == 0);
        assert(e.last() == digit_char(n));
        assert(digits_value(e) == digits_value(e.drop_last()) * 10 + (e.last() as u32 - 48));
    }
}

/// Writing a number in decimal and parsing it back gives the number.
pub proof fn lemma_decimal_parses_back(n: nat)
    requires
        n <= u32::MAX,
    ensures
        parse_u32(decimal(n)) == Some(n),
{
    lemma_decimal_digits(n);
}

/// The texts of `items` joined with `sep` between neighbours.
pub open spec fn joined(items: Seq<Seq<char>>, sep: Seq<char>) -> Seq<char>
    decreases items.len(),
{
    if items.len() == 0 {
        Seq::empty()
    } else if items.len() == 1 {
        items[0]
    } else {
        joined(items.drop_last(), sep) + sep + items.last()
    }
}

pub open spec fn string_views(items: Seq<String>) -> Seq<Seq<char>> {
    items.map_values(|s: String| s@)
}

/// `[String]::join`: the items with `sep` between neighbours.
pub fn join_strings(items: &Vec<String>, sep: &str) -> (res: String)
    ensures
        res@ == joined(string_views(items@), sep@),
{
    let mut out = String::new();
    let mut i: usize = 0;
    while i < items.len()
        invariant
            i <= items@.len(),
            out@ == joined(string_views(items@).take(i as int), sep@),
        decreases items@.len() - i,
    {
        let ghost views = string_views(items@);
        assert(views.take(i + 1).drop_last() =~= views.take(i as int));
        assert(views.take(i + 1).last() == items@[i as int]@);
        if i > 0 {
            out.append(sep);
        } else {
            assert(views.take(1) =~= seq![views[0]]);
        }
        out.append(items[i].as_str());
        i = i + 1;
    }
    assert(string_views(items@).take(items@.len() as int) =~= string_views(items@));
    out
}

/// `before`, the text and `after` when there is a text; nothing otherwise.
pub open spec fn optional_text(text: Option<String>, before: Seq<char>, after: Seq<char>) -> Seq<char> {
    match text {
        Some(t) => before + t@ + after,
        None => Seq::empty(),
    }
}

/// Each item in turn, between `before` and `after`.
pub open spec fn framed(items: Seq<Seq<char>>, before: Seq<char>, after: Seq<char>) -> Seq<char>
    decreases items.len(),
{
    if items.len() == 0 {
        Seq::empty()
    } else {
        framed(items.drop_last(), before, after) + before + items.last() + after
    }
}

/// `heading` and `body` when `present`; nothing otherwise.
pub open spec fn section(present: bool, heading: Seq<char>, body: Seq<char>) -> Seq<char> {
    if present {
        heading + body
    } else {
        Seq::empty()
    }
}

pub(crate) fn append_optional(out: &mut String, text: &Option<String>, before: &str, after: &str)
    ensures
        final(out)@ == old(out)@ + optional_text(*text, before@, after@),
{
    let ghost start = out@;
    match text {
        Some(t) => {
            out.append(before);
            out.append(t.as_str());
            out.append(after);
            assert(out@ =~= start + (before@ + t@ + after@));
        },
        None => {
            assert(out@ =~= start + Seq::<char>::empty());
        },
    }
}

pub(crate) fn append_framed(out: &mut String, items: &Vec<String>, before: &str, after: &str)
    ensures
        final(out)@ == old(out)@ + framed(string_views(items@), before@, after@),
{
    let ghost start = out@;
    let ghost views = string_views(items@);
    let mut i: usize = 0;
    assert(out@ =~= start + framed(views.take(0), before@, after@));
    while i < items.len()
        invariant
            i <= items@.len(),
            views == string_views(items@),
            out@ == start + framed(views.take(i as int), before@, after@),
        decreases items@.len() - i,
    {
        assert(views.take(i + 1).drop_last() =~= views.take(i as int));
        assert(views.take(i + 1).last() == items@[i as int]@);
        out.append(before);
        out.append(items[i].as_str());
        out.append(after);
        i = i + 1;
        assert(out@ =~= start + framed(views.take(i as int), before@, after@));
    }
    assert(views.take(items@.len() as int) =~= views);
}

/// A value that is shown as a block of text.
pub trait TextBlock {
    /// The text the value is shown as.
    spec fn text(&self) -> Seq<char>;

    fn render(&self) -> (res: String)
        ensures
            res@ == self.text(),
    ;
}

/// The texts of `items`, in order.
pub open spec fn texts<T: TextBlock>(items: Seq<T>) -> Seq<Seq<char>> {
    items.map_values(|x: T| x.text())
}

pub(crate) fn render_all<T: TextBlock>(items: &Vec<T>) -> (res: Vec<String>)
    ensures
        string_views(res@) == texts(items@),
{
    let mut out: Vec<String> = Vec::new();
    let mut i: usize = 0;
    while i < items.len()
        invariant
            i <= items@.len(),
            out@.len() == i,
            string_views(out@) == texts(items@).take(i as int),
        decreases items@.len() - i,
    {
        let text = items[i].render();
        assert(texts(items@)[i as int] == items@[i as int].text());
        out.push(text);
        i = i + 1;
        assert(string_views(out@) =~= texts(items@).take(i as int));
    }
    assert(texts(items@).take(items@.len() as int) =~= texts(items@));
    out
}

/// Whether `a` comes before `b` in the lexicographic order of their
/// characters, the order in which `str`'s `Ord` puts them (UTF-8 bytes
/// compare as their code points do).
pub open spec fn text_lt(a: Seq<char>, b: Seq<char>) -> bool
    decreases a.len(),
{
    if b.len() == 0 {
        false
    } else if a.len() == 0 {
        true
    } else if a[0] != b[0] {
        (a[0] as int) < (b[0] as int)
    } else {
        text_lt(a.drop_first(), b.drop_first())
    }
}

/// No text comes before itself.
pub proof fn lemma_text_lt_irreflexive(a: Seq<char>)
    ensures
        !text_lt(a, a),
    decreases a.len(),
{
    if a.len() > 0 {
        lemma_text_lt_irreflexive(a.drop_first());
    }
}

/// The order of texts is transitive.
pub proof fn lemma_text_lt_transitive(a: Seq<char>, b: Seq<char>, c: Seq<char>)
    requires
        text_lt(a, b),
        text_lt(b, c),
    ensures
        text_lt(a, c),
    decreases a.len(),
{
    if a.len() > 0 && b.len() > 0 && c.len() > 0 && a[0] == b[0] && b[0] == c[0] {
        lemma_text_lt_transitive(a.drop_first(), b.drop_first(), c.drop_first());
    }
}

/// Of two texts, one comes before the other unless they are equal.
pub proof fn lemma_text_lt_total(a: Seq<char>, b: Seq<char>)
    ensures
        text_lt(a, b) || a == b || text_lt(b, a),
    decreases a.len(),
{
    if a.len() > 0 && b.len() > 0 {
        if a[0] == b[0] {
            lemma_text_lt_total(a.drop_first(), b.drop_first());
            if a.drop_first() == b.drop_first() {
                assert(a =~= seq![a[0]] + a.drop_first());
                assert(b =~= seq![b[0]] + b.drop_first());
            }
        } else {
            assert((a[0] as int) != (b[0] as int));
        }
    } else if a.len() == 0 && b.len() == 0 {
        assert(a =~= b);
    }
}

/// Whether `a` comes before `b`: the comparison of `str`'s `Ord`.
pub fn text_less(a: &str, b: &str) -> (res: bool)
    ensures
        res == text_lt(a@, b@),
{
    let n = a.unicode_len();
    let m = b.unicode_len();
    let mut i: usize = 0;
    assert(a@.skip(0) =~= a@);
    assert(b@.skip(0) =~= b@);
    while i < n && i < m
        invariant
            n == a@.len(),
            m == b@.len(),
            i <= n,
            i <= m,
            text_lt(a@, b@) == text_lt(a@.skip(i as int), b@.skip(i as int)),
        decreases n - i,
    {
        let x = a.get_char(i);
        let y = b.get_char(i);
        assert(a@.skip(i as int)[0] == x);
        assert(b@.skip(i as int)[0] == y);
        if x != y {
            return (x as u32) < (y as u32);
        }
        assert(a@.skip(i as int).drop_first() =~= a@.skip(i + 1));
        assert(b@.skip(i as int).drop_first() =~= b@.skip(i + 1));
        i = i + 1;
    }
    assert(a@.skip(i as int).len() == n - i);
    assert(b@.skip(i as int).len() == m - i);
    i == n && i < m
}

/// Not coming before another text is transitive: the order of texts is
/// total.
pub proof fn lemma_text_not_lt_transitive(a: Seq<char>, b: Seq<char>, c: Seq<char>)
    requires
        !text_lt(a, b),
        !text_lt(b, c),
    ensures
        !text_lt(a, c),
{
    lemma_text_lt_total(a, b);
    lemma_text_lt_total(b, c);
    if text_lt(a, c) {
        if text_lt(b, a) && text_lt(c, b) {
            lemma_text_lt_transitive(c, b, a);
            lemma_text_lt_transitive(a, c, a);
            lemma_text_lt_irreflexive(a);
        } else if text_lt(b, a) {
            lemma_text_lt_transitive(a, c, b);
        } else if text_lt(c, b) {
            lemma_text_lt_transitive(c, b, c);
        }
    }
}

/// Whether `order` lists every index below `n` once.
pub open spec fn lists_each_index(order: Seq<usize>, n: nat) -> bool {
    &&& order.len() == n
    &&& forall|k: int| 0 <= k < order.len() ==> order[k] < n
    &&& forall|a: int, b: int| 0 <= a < b < order.len() ==> order[a] != order[b]
    &&& forall|k: int| 0 <= k < n ==> #[trigger] index_listed(order, k)
}

/// Whether index `k` occurs in `order`.
pub open spec fn index_listed(order: Seq<usize>, k: int) -> bool {
    exists|j: int| 0 <= j < order.len() && #[trigger] order[j] == k
}

/// Whether `order` lists `keys` in the order of texts, equal keys in the
/// order they were given.
pub open spec fn in_text_order(keys: Seq<Seq<char>>, order: Seq<usize>) -> bool {
    &&& lists_each_index(order, keys.len())
    &&& forall|a: int, b: int|
        0 <= a < b < order.len() ==> !text_lt(#[trigger] keys[order[b] as int], #[trigger] keys[order[a] as int])
    &&& forall|a: int, b: int|
        0 <= a < b < order.len() && !text_lt(keys[order[a] as int], keys[order[b] as int]) ==> order[a] < order[b]
}

/// The order that sorts `keys` as `str`'s `Ord` does, stably.
pub fn text_order(keys: &Vec<String>) -> (order: Vec<usize>)
    ensures
        in_text_order(string_views(keys@), order@),
{
    let ghost s = string_views(keys@);
    let mut order: Vec<usize> = Vec::new();
    let mut i: usize = 0;
    while i < keys.len()
        invariant
            s == string_views(keys@),
            i <= s.len(),
            order@.len() == i,
            forall|k: int| 0 <= k < order@.len() ==> order@[k] < i,
            forall|a: int, b: int| 0 <= a < b < order@.len() ==> order@[a] != order@[b],
            forall|k: int| 0 <= k < i ==> #[trigger] index_listed(order@, k),
            forall|a: int, b: int|
                0 <= a < b < order@.len() ==> !text_lt(#[trigger] s[order@[b] as int], #[trigger] s[order@[a] as int]),
            forall|a: int, b: int|
                0 <= a < b < order@.len() && !text_lt(s[order@[a] as int], s[order@[b] as int]) ==> order@[a] < order@[b],
        decreases s.len() - i,
    {
        let mut pos: usize = order.len();
        while pos > 0 && text_less(keys[i].as_str(), keys[order[pos - 1]].as_str())
            invariant
                s == string_views(keys@),
                i < s.len(),
                pos <= order@.len(),
                order@.len() == i,
                forall|k: int| 0 <= k < order@.len() ==> order@[k] < i,
                forall|b: int| pos <= b < order@.len() ==> text_lt(s[i as int], #[trigger] s[order@[b] as int]),
            decreases pos,
        {
            pos = pos - 1;
        }
        proof {
            if pos > 0 {
                let p = s[order@[pos - 1] as int];
                assert(!text_lt(s[i as int], p));
                assert forall|a: int| 0 <= a < pos implies !text_lt(s[i as int], #[trigger] s[order@[a] as int]) by {
                    if a < pos - 1 {
                        assert(!text_lt(p, s[order@[a] as int]));
                        lemma_text_not_lt_transitive(s[i as int], p, s[order@[a] as int]);
                    }
                }
            }
            assert forall|b: int| pos <= b < order@.len() implies !text_lt(#[trigger] s[order@[b] as int], s[i as int]) by {
                assert(text_lt(s[i as int], s[order@[b] as int]));
                if text_lt(s[order@[b] as int], s[i as int]) {
                    lemma_text_lt_transitive(s[i as int], s[order@[b] as int], s[i as int]);
                    lemma_text_lt_irreflexive(s[i as int]);
                }
            }
        }
        let ghost old_order = order@;
        order.insert(pos, i);
        proof {
            let o = order@;
            assert(o == old_order.insert(pos as int, i));
            assert forall|k: int| 0 <= k < o.len() implies o[k] < i + 1 by {
                if k < pos {
                    assert(o[k] == old_order[k]);
                } else if k > pos {
                    assert(o[k] == old_order[k - 1]);
                }
            }
            assert forall|k: int| 0 <= k < i + 1 implies #[trigger] index_listed(o, k) by {
                if k == i {
                    assert(o[pos as int] == i);
                } else {
                    assert(index_listed(old_order, k));
                    let j = choose|j: int| 0 <= j < old_order.len() && #[trigger] old_order[j] == k;
                    if j < pos {
                        assert(o[j] == k);
                    } else {
                        assert(o[j + 1] == k);
                    }
                }
            }
            assert forall|a: int, b: int| 0 <= a < b < o.len() implies o[a] != o[b] && !text_lt(
                #[trigger] s[o[b] as int],
                #[trigger] s[o[a] as int],
            ) && (!text_lt(s[o[a] as int], s[o[b] as int]) ==> o[a] < o[b]) by {
                let oa = if a < pos { a } else { a - 1 };
                let ob = if b < pos { b } else { b - 1 };
                if a == pos {
                    assert(o[a] == i);
                    assert(o[b] == old_order[ob]);
                    assert(!text_lt(s[old_order[ob] as int], s[i as int]));
                    assert(text_lt(s[i as int], s[old_order[ob] as int]));
                } else if b == pos {
                    assert(o[b] == i);
                    assert(o[a] == old_order[oa]);
                    assert(!text_lt(s[i as int], s[old_order[oa] as int]));
                } else {
                    assert(o[a] == old_order[oa]);
                    assert(o[b] == old_order[ob]);
                    assert(oa < ob);
                }
            }
        }
        i = i + 1;
    }
    order
}

/// A text occurs in anything built around it.
pub proof fn lemma_occurs_in_middle(a: Seq<char>, piece: Seq<char>, b: Seq<char>)
    ensures
        occurs_in(a + piece + b, piece),
{
    assert((a + piece + b).subrange(a.len() as int, (a.len() + piece.len()) as int) =~= piece);
    assert(occurs_at(a + piece + b, piece, a.len() as int));
}

/// Framing distributes over concatenation.
pub proof fn lemma_framed_concat(x: Seq<Seq<char>>, y: Seq<Seq<char>>, before: Seq<char>, after: Seq<char>)
    ensures
        framed(x + y, before, after) == framed(x, before, after) + framed(y, before, after),
    decreases y.len(),
{
    if y.len() == 0 {
        assert(x + y =~= x);
        assert(framed(x, before, after) + Seq::<char>::empty() =~= framed(x, before, after));
    } else {
        assert((x + y).drop_last() =~= x + y.drop_last());
        assert((x + y).last() == y.last());
        lemma_framed_concat(x, y.drop_last(), before, after);
        assert(framed(x + y, before, after) =~= framed(x, before, after) + framed(y, before, after));
    }
}

/// Each item of a framed list shows, between `before` and `after`, after
/// the items before it and before the items after it.
pub proof fn lemma_framed_item(items: Seq<Seq<char>>, k: int, before: Seq<char>, after: Seq<char>)
    requires
        0 <= k < items.len(),
    ensures
        framed(items, before, after) == framed(items.take(k), before, after) + (before + items[k] + after)
            + framed(items.skip(k + 1), before, after),
        occurs_in(framed(items, before, after), before + items[k] + after),
{
    let one = seq![items[k]];
    assert(items =~= items.take(k) + one + items.skip(k + 1));
    lemma_framed_concat(items.take(k) + one, items.skip(k + 1), before, after);
    lemma_framed_concat(items.take(k), one, before, after);
    assert(one.drop_last() =~= Seq::<Seq<char>>::empty());
    assert(one.last() == items[k]);
    assert(framed(one.drop_last(), before, after) == Seq::<char>::empty());
    assert(framed(one, before, after) == Seq::<char>::empty() + before + items[k] + after);
    assert(Seq::<char>::empty() + before + items[k] + after =~= before + items[k] + after);
    assert(framed(items, before, after) =~= framed(items.take(k), before, after) + (before + items[k] + after)
        + framed(items.skip(k + 1), before, after));
    lemma_occurs_in_middle(framed(items.take(k), before, after), before + items[k] + after, framed(items.skip(k + 1), before, after));
}

/// What occurs in a part of a text occurs in the text.
pub proof fn lemma_occurs_in_transitive(t: Seq<char>, p: Seq<char>, q: Seq<char>)
    requires
        occurs_in(t, p),
        occurs_in(p, q),
    ensures
        occurs_in(t, q),
{
    let a = choose|a: int| occurs_at(t, p, a);
    let b = choose|b: int| occurs_at(p, q, b);
    assert(t.subrange(a + b, a + b + q.len()) =~= p.subrange(b, b + q.len()));
    assert(occurs_at(t, q, a + b));
}

/// Each part of a text built from seven parts occurs in it; the first is
/// its prefix and the last its suffix.
pub proof fn lemma_seven_parts(
    p0: Seq<char>,
    p1: Seq<char>,
    p2: Seq<char>,
    p3: Seq<char>,
    p4: Seq<char>,
    p5: Seq<char>,
    p6: Seq<char>,
)
    ensures
        p0.is_prefix_of(p0 + p1 + p2 + p3 + p4 + p5 + p6),
        p6.is_suffix_of(p0 + p1 + p2 + p3 + p4 + p5 + p6),
        occurs_in(p0 + p1 + p2 + p3 + p4 + p5 + p6, p1),
        occurs_in(p0 + p1 + p2 + p3 + p4 + p5 + p6, p2),
        occurs_in(p0 + p1 + p2 + p3 + p4 + p5 + p6, p3),
        occurs_in(p0 + p1 + p2 + p3 + p4 + p5 + p6, p4),
        occurs_in(p0 + p1 + p2 + p3 + p4 + p5 + p6, p5),
{
    let t = p0 + p1 + p2 + p3 + p4 + p5 + p6;
    assert(t.subrange(0, p0.len() as int) =~= p0);
    assert(t.subrange(t.len() - p6.len(), t.len() as int) =~= p6);
    assert(t =~= p0 + p1 + (p2 + p3 + p4 + p5 + p6));
    lemma_occurs_in_middle(p0, p1, p2 + p3 + p4 + p5 + p6);
    assert(t =~= (p0 + p1) + p2 + (p3 + p4 + p5 + p6));
    lemma_occurs_in_middle(p0 + p1, p2, p3 + p4 + p5 + p6);
    assert(t =~= (p0 + p1 + p2) + p3 + (p4 + p5 + p6));
    lemma_occurs_in_middle(p0 + p1 + p2, p3, p4 + p5 + p6);
    assert(t =~= (p0 + p1 + p2 + p3) + p4 + (p5 + p6));
    lemma_occurs_in_middle(p0 + p1 + p2 + p3, p4, p5 + p6);
    lemma_occurs_in_middle(p0 + p1 + p2 + p3 + p4, p5, p6);
}

/// Every line of a headed list occurs in it.
pub proof fn lemma_listed_line_occurs(heading: Seq<char>, lines: Seq<Seq<char>>, k: int)
    requires
        0 <= k < lines.len(),
    ensures
        occurs_in(heading + framed(lines, ""@, "\n"@), lines[k]),
{
    let f = framed(lines, ""@, "\n"@);
    reveal_strlit("");
    lemma_framed_item(lines, k, ""@, "\n"@);
    assert(""@ + lines[k] + "\n"@ =~= Seq::<char>::empty() + lines[k] + "\n"@);
    lemma_occurs_in_middle(Seq::empty(), lines[k], "\n"@);
    lemma_occurs_in_transitive(f, ""@ + lines[k] + "\n"@, lines[k]);
    assert(heading + f =~= heading + f + Seq::<char>::empty());
    lemma_occurs_in_middle(heading, f, Seq::empty());
    lemma_occurs_in_transitive(heading + f, f, lines[k]);
}

} // verus!
