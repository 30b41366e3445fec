use vstd::prelude::*;

verus! {

/// `String::push` appends one character to the end of the string.
pub assume_specification[ String::push ](s: &mut String, ch: char)
    ensures
        final(s)@ == old(s)@.push(ch),
;

/// The characters of `s`, in order.
pub fn chars_of(s: &str) -> (chars: Vec<char>)
    ensures
        chars@ == s@,
{
    let mut chars: Vec<char> = Vec::new();
    for c in it: s.chars()
        invariant
            chars@ == it.seq().take(it.index() as int),
            it.seq() == s@,
    {
        chars.push(c);
    }
    chars
}

/// Whether the two texts are equal.
pub fn text_eq(a: &str, b: &str) -> (r: bool)
    ensures
        r == (a@ == b@),
{
    let ac = chars_of(a);
    let bc = chars_of(b);
    if ac.len() != bc.len() {
        return false;
    }
    let mut i: usize = 0;
    while i < ac.len()
        invariant
            ac@ == a@,
            bc@ == b@,
            ac.len() == bc.len(),
            0 <= i <= ac.len(),
            ac@.take(i as int) == bc@.take(i as int),
        decreases ac.len() - i,
    {
        if ac[i] != bc[i] {
            assert(a@[i as int] != b@[i as int]);
            return false;
        }
        assert(ac@.take(i as int + 1) =~= ac@.take(i as int).push(ac@[i as int]));
        assert(bc@.take(i as int + 1) =~= bc@.take(i as int).push(bc@[i as int]));
        i += 1;
    }
    assert(ac@.take(i as int) =~= ac@);
    assert(bc@.take(i as int) =~= bc@);
    true
}

/// `Some(rest)` when `s` is `prefix` followed by `rest`, else `None`.
pub open spec fn without_prefix(s: Seq<char>, prefix: Seq<char>) -> Option<Seq<char>> {
    if prefix.len() <= s.len() && s.take(prefix.len() as int) == prefix {
        Some(s.skip(prefix.len() as int))
    } else {
        None
    }
}

/// The text of `s` after `prefix`, when `s` starts with `prefix`.
pub fn strip_prefix(s: &str, prefix: &str) -> (r: Option<String>)
    ensures
        match r {
            Some(rest) => without_prefix(s@, prefix@) == Some(rest@),
            None => without_prefix(s@, prefix@) is None,
        },
{
    let sc = chars_of(s);
    let pc = chars_of(prefix);
    if pc.len() > sc.len() {
        return None;
    }
    let mut i: usize = 0;
    while i < pc.len()
        invariant
            sc@ == s@,
            pc@ == prefix@,
            pc.len() <= sc.len(),
            0 <= i <= pc.len(),
            sc@.take(i as int) == pc@.take(i as int),
        decreases pc.len() - i,
    {
        if sc[i] != pc[i] {
            assert(s@.take(prefix@.len() as int)[i as int] != prefix@[i as int]);
            return None;
        }
        assert(sc@.take(i as int + 1) =~= sc@.take(i as int).push(sc@[i as int]));
        assert(pc@.take(i as int + 1) =~= pc@.take(i as int).push(pc@[i as int]));
        i += 1;
    }
    assert(pc@.take(i as int) =~= pc@);
    let mut rest = String::new();
    let mut j: usize = pc.len();
    while j < sc.len()
        invariant
            sc@ == s@,
            pc@ == prefix@,
            pc.len() <= j <= sc.len(),
            rest@ == sc@.subrange(pc.len() as int, j as int),
        decreases sc.len() - j,
    {
        rest.push(sc[j]);
        assert(sc@.subrange(pc.len() as int, j as int + 1) =~= sc@.subrange(
            pc.len() as int,
            j as int,
        ).push(sc@[j as int]));
        j += 1;
    }
    assert(rest@ =~= s@.skip(prefix@.len() as int));
    Some(rest)
}

/// Whether `s` begins with `prefix`.
pub fn starts_with(s: &str, prefix: &str) -> (r: bool)
    ensures
        r == (without_prefix(s@, prefix@) is Some),
{
    strip_prefix(s, prefix).is_some()
}

/// The character of the decimal digit `d`.
pub open spec fn digit_char(d: int) -> char {
    (d + 48) as char
}

/// The decimal digits of `n`, most significant first, without leading zeros.
pub open spec fn decimal_digits(n: nat) -> Seq<char>
    decreases n,
{
    if n < 10 {
        seq![digit_char(n as int)]
    } else {
        decimal_digits(n / 10).push(digit_char((n % 10) as int))
    }
}

/// The decimal text of `n`, with a leading `-` when negative.
pub open spec fn decimal_text(n: int) -> Seq<char> {
    if n < 0 {
        seq!['-'] + decimal_digits((-n) as nat)
    } else {
        decimal_digits(n as nat)
    }
}

fn digit(d: u8) -> (c: char)
    requires
        d < 10,
    ensures
        c == digit_char(d as int),
{
    let c = (d + 48) as char;
    assert(c == digit_char(d as int)) by {
        assert((d + 48) as u8 as char == ((d as int) + 48) as char);
    }
    c
}

/// Appends the decimal digits of `n` to `s`.
pub fn push_decimal(s: &mut String, n: u128)
    ensures
        final(s)@ == old(s)@ + decimal_digits(n as nat),
    decreases n,
{
    if n < 10 {
        s.push(digit(n as u8));
        assert(decimal_digits(n as nat) =~= seq![digit_char(n as int)]);
    } else {
        push_decimal(s, n / 10);
        s.push(digit((n % 10) as u8));
        assert(old(s)@ + decimal_digits(n as nat) =~= old(s)@ + decimal_digits((n / 10) as nat) + seq![
            digit_char((n % 10) as int),
        ]);
    }
}

/// The decimal text of a signed integer.
pub fn i64_decimal(n: i64) -> (r: String)
    ensures
        r@ == decimal_text(n as int),
{
    let mut s = String::new();
    if n < 0 {
        s.push('-');
        let magnitude: u128 = (0i128 - (n as i128)) as u128;
        push_decimal(&mut s, magnitude);
        assert(s@ =~= seq!['-'] + decimal_digits((-n) as nat));
    } else {
        push_decimal(&mut s, n as u128);
        assert(s@ =~= decimal_digits(n as nat));
    }
    s
}

/// Code-point lexicographic order on texts: the order of `String`'s `Ord`
/// (byte order of UTF-8, which orders code points the same way).
pub open spec fn text_before(a: Seq<char>, b: Seq<char>) -> bool
    decreases a.len(),
{
    if b.len() == 0 {
        false
    } else if a.len() == 0 {
        true
    } else if a[0] != b[0] {
        (a[0] as int) < (b[0] as int)
    } else {
        text_before(a.drop_first(), b.drop_first())
    }
}

proof fn lemma_text_before_common_prefix(a: Seq<char>, b: Seq<char>, i: int)
    requires
        0 <= i <= a.len(),
        i <= b.len(),
        a.take(i) == b.take(i),
    ensures
        text_before(a, b) == text_before(a.skip(i), b.skip(i)),
    decreases i,
{
    if i > 0 {
        assert(a[0] == a.take(i)[0] && b[0] == b.take(i)[0]);
        assert(a.drop_first().take(i - 1) =~= a.take(i).drop_first());
        assert(b.drop_first().take(i - 1) =~= b.take(i).drop_first());
        lemma_text_before_common_prefix(a.drop_first(), b.drop_first(), i - 1);
        assert(a.drop_first().skip(i - 1) =~= a.skip(i));
        assert(b.drop_first().skip(i - 1) =~= b.skip(i));
    } else {
        assert(a.skip(0) =~= a);
        assert(b.skip(0) =~= b);
    }
}

/// Whether `a` comes strictly before `b` in code-point lexicographic order.
pub fn text_less(a: &str, b: &str) -> (r: bool)
    ensures
        r == text_before(a@, b@),
{
    let ac = chars_of(a);
    let bc = chars_of(b);
    let mut i: usize = 0;
    while i < ac.len() && i < bc.len()
        invariant
            ac@ == a@,
            bc@ == b@,
            0 <= i <= ac.len(),
            i <= bc.len(),
            ac@.take(i as int) == bc@.take(i as int),
        decreases ac.len() - i,
    {
        if ac[i] != bc[i] {
            proof {
                lemma_text_before_common_prefix(a@, b@, i as int);
                assert(a@.skip(i as int)[0] == ac@[i as int]);
                assert(b@.skip(i as int)[0] == bc@[i as int]);
            }
            return ac[i] < bc[i];
        }
        assert(ac@.take(i as int + 1) =~= ac@.take(i as int).push(ac@[i as int]));
        assert(bc@.take(i as int + 1) =~= bc@.take(i as int).push(bc@[i as int]));
        i += 1;
    }
    proof {
        lemma_text_before_common_prefix(a@, b@, i as int);
    }
    i < bc.len()
}

/// Code-point lexicographic order is a strict weak order.
pub proof fn lemma_text_before_strict_weak_order()
    ensures
        crate::order::strict_weak_order(|a: Seq<char>, b: Seq<char>| text_before(a, b)),
{
    let before = |a: Seq<char>, b: Seq<char>| text_before(a, b);
    assert forall|a: Seq<char>, b: Seq<char>| #[trigger] before(a, b) implies !before(b, a) by {
        lemma_text_before_asymmetric(a, b);
    }
    assert forall|a: Seq<char>, b: Seq<char>, c: Seq<char>|
        #![trigger before(a, b), before(b, c)]
        #![trigger before(a, b), before(a, c)]
        #![trigger before(b, c), before(a, c)]
        !before(a, b) && !before(b, c) implies !before(a, c) by {
        lemma_text_before_total(a, b);
        lemma_text_before_total(b, c);
        if before(b, a) && before(c, b) {
            lemma_text_before_transitive(c, b, a);
            lemma_text_before_asymmetric(c, a);
        } else if before(b, a) {
            lemma_text_before_asymmetric(b, a);
        } else if before(c, b) {
            lemma_text_before_asymmetric(c, b);
        } else {
            lemma_text_before_irreflexive(a);
        }
    }
}

proof fn lemma_text_before_irreflexive(a: Seq<char>)
    ensures
        !text_before(a, a),
    decreases a.len(),
{
    if a.len() > 0 {
        lemma_text_before_irreflexive(a.drop_first());
    }
}

proof fn lemma_text_before_asymmetric(a: Seq<char>, b: Seq<char>)
    ensures
        text_before(a, b) ==> !text_before(b, a),
    decreases a.len(),
{
    if a.len() > 0 && b.len() > 0 && a[0] == b[0] {
        lemma_text_before_asymmetric(a.drop_first(), b.drop_first());
    }
}

proof fn lemma_text_before_total(a: Seq<char>, b: Seq<char>)
    ensures
        a != b ==> text_before(a, b) || text_before(b, a),
    decreases a.len(),
{
    if a.len() > 0 && b.len() > 0 && a[0] == b[0] {
        lemma_text_before_total(a.drop_first(), b.drop_first());
        if a.drop_first() == b.drop_first() {
            assert(a =~= seq![a[0]] + a.drop_first());
            assert(b =~= seq![b[0]] + b.drop_first());
        }
    } else if a.len() == 0 && b.len() == 0 {
        assert(a =~= b);
    } else if a.len() > 0 && b.len() > 0 {
        assert((a[0] as int) != (b[0] as int));
    }
}

proof fn lemma_text_before_transitive(a: Seq<char>, b: Seq<char>, c: Seq<char>)
    requires
        text_before(a, b),
        text_before(b, c),
    ensures
        text_before(a, c),
    decreases a.len(),
{
    if a.len() > 0 && b.len() > 0 && c.len() > 0 && a[0] == b[0] && b[0] == c[0] {
        lemma_text_before_transitive(a.drop_first(), b.drop_first(), c.drop_first());
    }
}

/// The texts joined with a single newline between neighbours.
pub open spec fn newline_joined(texts: Seq<Seq<char>>) -> Seq<char>
    decreases texts.len(),
{
    if texts.len() == 0 {
        seq![]
    } else if texts.len() == 1 {
        texts[0]
    } else {
        newline_joined(texts.drop_last()) + seq!['\n'] + texts.last()
    }
}

/// Joining non-empty texts, at least one, gives a non-empty text.
pub proof fn lemma_newline_joined_nonempty(texts: Seq<Seq<char>>)
    requires
        texts.len() > 0,
        forall|i: int| 0 <= i < texts.len() ==> #[trigger] texts[i].len() > 0,
    ensures
        newline_joined(texts).len() > 0,
{
    if texts.len() == 1 {
        assert(texts[0].len() > 0);
    }
}

/// The texts of `v`, in order.
pub open spec fn texts_model(v: Seq<String>) -> Seq<Seq<char>> {
    v.map_values(|t: String| t@)
}

/// Joins the texts with a newline between neighbours (as `[String]::join("\n")`).
pub fn join_with_newline(texts: &Vec<String>) -> (r: String)
    ensures
        r@ == newline_joined(texts_model(texts@)),
{
    let mut r = String::new();
    let mut i: usize = 0;
    while i < texts.len()
        invariant
            0 <= i <= texts.len(),
            r@ == newline_joined(texts_model(texts@).take(i as int)),
        decreases texts.len() - i,
    {
        let ghost prefix = texts_model(texts@).take(i as int + 1);
        assert(prefix.drop_last() =~= texts_model(texts@).take(i as int));
        if i > 0 {
            r.push('\n');
        }
        r.append(texts[i].as_str());
        if i == 0 {
            assert(r@ =~= newline_joined(prefix));
        } else {
            assert(r@ =~= newline_joined(prefix));
        }
        i += 1;
    }
    assert(texts_model(texts@).take(i as int) =~= texts_model(texts@));
    r
}

/// The view of an optional text.
pub open spec fn option_text(o: Option<String>) -> Option<Seq<char>> {
    match o {
        Some(t) => Some(t@),
        None => None,
    }
}

} // verus!
