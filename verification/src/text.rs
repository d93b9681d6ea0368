//! Text: comparing, splitting and building strings character by character.
use vstd::prelude::*;

verus! {

/// `c`, with an upper case ASCII letter made lower case.
pub open spec fn ascii_lower(c: char) -> char {
    if 'A' <= c <= 'Z' {
        (c as u32 + 32) as char
    } else {
        c
    }
}

/// `s`, with every upper case ASCII letter made lower case.
pub open spec fn ascii_lowercase(s: Seq<char>) -> Seq<char> {
    Seq::new(s.len(), |i: int| ascii_lower(s[i]))
}

/// Whether two texts are the same but for the case of ASCII letters.
pub open spec fn same_but_for_case(a: Seq<char>, b: Seq<char>) -> bool {
    ascii_lowercase(a) == ascii_lowercase(b)
}

/// Making a letter lower case: no upper case ASCII letter is left, a character that
/// changes was one and moves up by 32 places, and doing it twice is doing it once.
pub proof fn law_lower(c: char)
    ensures
        !('A' <= ascii_lower(c) <= 'Z'),
        ascii_lower(c) != c ==> 'A' <= c <= 'Z' && ascii_lower(c) as int == c as int + 32,
        ascii_lower(ascii_lower(c)) == ascii_lower(c),
{
}

/// Texts are the same but for case exactly if they are as long as each other and,
/// place by place, have the same character or the same letter in two cases.
pub proof fn law_same_but_for_case(a: Seq<char>, b: Seq<char>)
    ensures
        same_but_for_case(a, b) <==> (a.len() == b.len() && forall|i: int|
            0 <= i < a.len() ==> {
                let (x, y) = (#[trigger] a[i], b[i]);
                ||| x == y
                ||| 'A' <= x <= 'Z' && y as int == x as int + 32
                ||| 'A' <= y <= 'Z' && x as int == y as int + 32
            }),
{
    let (p, q) = (ascii_lowercase(a), ascii_lowercase(b));
    if same_but_for_case(a, b) {
        assert(p.len() == q.len());
        assert forall|i: int| 0 <= i < a.len() implies {
            let (x, y) = (#[trigger] a[i], b[i]);
            ||| x == y
            ||| 'A' <= x <= 'Z' && y as int == x as int + 32
            ||| 'A' <= y <= 'Z' && x as int == y as int + 32
        } by {
            assert(p[i] == q[i]);
        }
    } else if a.len() == b.len() {
        let i = choose|i: int| 0 <= i < a.len() && p[i] != q[i];
        assert(!(p =~= q));
        assert(ascii_lower(a[i]) != ascii_lower(b[i]));
    }
}

/// `c`, with an upper case ASCII letter made lower case.
pub fn to_ascii_lower(c: char) -> (r: char)
    ensures
        r == ascii_lower(c),
{
    if 'A' <= c && c <= 'Z' {
        let b: u8 = c as u8;
        (b + 32) as char
    } else {
        c
    }
}

/// Whether two texts are equal.
pub fn same_text(a: &str, b: &str) -> (r: bool)
    ensures
        r == (a@ == b@),
{
    a.to_owned() == b.to_owned()
}

/// Whether two texts are equal but for the case of ASCII letters.
pub fn eq_ignore_ascii_case(a: &str, b: &str) -> (r: bool)
    ensures
        r == same_but_for_case(a@, b@),
{
    let n: usize = a.unicode_len();
    if n != b.unicode_len() {
        assert(ascii_lowercase(a@).len() != ascii_lowercase(b@).len());
        return false;
    }
    let mut i: usize = 0;
    while i < n
        invariant
            i <= n,
            n == a@.len(),
            n == b@.len(),
            forall|j: int| 0 <= j < i ==> ascii_lower(#[trigger] a@[j]) == ascii_lower(b@[j]),
        decreases n - i,
    {
        if to_ascii_lower(a.get_char(i)) != to_ascii_lower(b.get_char(i)) {
            assert(ascii_lowercase(a@)[i as int] != ascii_lowercase(b@)[i as int]);
            return false;
        }
        i = i + 1;
    }
    assert(ascii_lowercase(a@) =~= ascii_lowercase(b@));
    true
}

/// The parts of `s` between its NUL characters. There is one more of them than
/// there are NUL characters.
pub open spec fn nul_parts(s: Seq<char>) -> Seq<Seq<char>>
    decreases s.len(),
{
    if s.len() == 0 {
        seq![Seq::empty()]
    } else {
        let before = nul_parts(s.drop_last());
        if s.last() == '\0' {
            before.push(Seq::empty())
        } else {
            before.drop_last().push(before.last().push(s.last()))
        }
    }
}

/// The texts that are not empty, in order.
pub open spec fn non_empty(parts: Seq<Seq<char>>) -> Seq<Seq<char>>
    decreases parts.len(),
{
    if parts.len() == 0 {
        Seq::empty()
    } else {
        let before = non_empty(parts.drop_last());
        if parts.last().len() == 0 {
            before
        } else {
            before.push(parts.last())
        }
    }
}

/// The values in a text with NUL characters between them. Empty ones do not
/// count.
pub open spec fn values_of(s: Seq<char>) -> Seq<Seq<char>> {
    non_empty(nul_parts(s))
}

/// What a list of strings says.
pub open spec fn text_views(v: Seq<String>) -> Seq<Seq<char>> {
    Seq::new(v.len(), |i: int| v[i]@)
}

/// The part behind the last NUL character of a text.
proof fn lemma_nul_parts(s: Seq<char>, start: int)
    requires
        0 <= start <= s.len(),
        start == 0 || s[start - 1] == '\0',
        forall|i: int| start <= i < s.len() ==> s[i] != '\0',
    ensures
        nul_parts(s).len() > 0,
        nul_parts(s).last() == s.skip(start),
        start > 0 ==> nul_parts(s).drop_last() == nul_parts(s.take(start - 1)),
        start == 0 ==> nul_parts(s).len() == 1,
    decreases s.len(),
{
    if s.len() > start {
        let r = s.drop_last();
        lemma_nul_parts(r, start);
        assert(r.skip(start).push(s.last()) =~= s.skip(start));
        assert(nul_parts(s).drop_last() =~= nul_parts(r).drop_last());
        if start > 0 {
            assert(r.take(start - 1) =~= s.take(start - 1));
        }
    } else if start > 0 {
        assert(s.last() == '\0');
        assert(s.drop_last() =~= s.take(start - 1));
        assert(nul_parts(s).drop_last() =~= nul_parts(s.take(start - 1)));
        assert(s.skip(start) =~= Seq::empty());
    } else {
        assert(s.skip(0) =~= Seq::empty());
    }
}

/// The values of a text are those before its last NUL character, and then what
/// is behind it.
proof fn lemma_values_of(s: Seq<char>, start: int)
    requires
        0 <= start <= s.len(),
        start == 0 || s[start - 1] == '\0',
        forall|i: int| start <= i < s.len() ==> s[i] != '\0',
    ensures
        ({
            let before = if start == 0 {
                Seq::<Seq<char>>::empty()
            } else {
                values_of(s.take(start - 1))
            };
            values_of(s) == if start == s.len() {
                before
            } else {
                before.push(s.skip(start))
            }
        }),
{
    lemma_nul_parts(s, start);
    let parts = nul_parts(s);
    if start == 0 {
        assert(parts.drop_last() =~= Seq::<Seq<char>>::empty());
        assert(non_empty(parts.drop_last()) =~= Seq::<Seq<char>>::empty());
    }
}

/// The parts with NUL characters between them.
pub open spec fn nul_joined(parts: Seq<Seq<char>>) -> Seq<char>
    decreases parts.len(),
{
    if parts.len() == 0 {
        Seq::empty()
    } else if parts.len() == 1 {
        parts[0]
    } else {
        nul_joined(parts.drop_last()) + seq!['\0'] + parts.last()
    }
}

/// Splitting a text at its NUL characters loses nothing: joining the parts gives
/// the text back.
pub proof fn law_nul_parts_join(s: Seq<char>)
    ensures
        nul_parts(s).len() > 0,
        nul_joined(nul_parts(s)) == s,
    decreases s.len(),
{
    if s.len() > 0 {
        let before = nul_parts(s.drop_last());
        law_nul_parts_join(s.drop_last());
        if s.last() == '\0' {
            assert(nul_parts(s).drop_last() =~= before);
            assert(nul_joined(nul_parts(s)) =~= s);
        } else {
            assert(nul_parts(s).drop_last() =~= before.drop_last());
            assert(nul_joined(nul_parts(s)) =~= nul_joined(before).push(s.last()));
            assert(s.drop_last().push(s.last()) =~= s);
        }
    } else {
        assert(nul_joined(nul_parts(s)) =~= s);
    }
}

/// No part of a text between NUL characters has one.
proof fn lemma_parts_plain(s: Seq<char>)
    ensures
        nul_parts(s).len() > 0,
        forall|i: int| 0 <= i < nul_parts(s).len() ==> !(#[trigger] nul_parts(s)[i]).contains('\0'),
    decreases s.len(),
{
    if s.len() > 0 {
        let before = nul_parts(s.drop_last());
        lemma_parts_plain(s.drop_last());
        assert forall|i: int| 0 <= i < nul_parts(s).len() implies !(
        #[trigger] nul_parts(s)[i]).contains('\0') by {
            if i < before.len() - 1 {
                assert(nul_parts(s)[i] == before[i]);
            } else if i == before.len() - 1 {
                assert(!before[i].contains('\0'));
                if s.last() != '\0' {
                    let p = before[i].push(s.last());
                    assert(nul_parts(s)[i] == p);
                    if p.contains('\0') {
                        let j = choose|j: int| 0 <= j < p.len() && p[j] == '\0';
                        assert(before[i][j] == '\0');
                    }
                }
            }
        }
    }
}

/// The values of a text are not empty and have no NUL characters.
pub proof fn law_values_plain(s: Seq<char>)
    ensures
        forall|i: int|
            0 <= i < values_of(s).len() ==> (#[trigger] values_of(s)[i]).len() > 0 && !values_of(
                s,
            )[i].contains('\0'),
{
    lemma_parts_plain(s);
    lemma_non_empty(nul_parts(s));
}

/// Leaving out the empty texts keeps what holds of all.
proof fn lemma_non_empty(parts: Seq<Seq<char>>)
    requires
        forall|i: int| 0 <= i < parts.len() ==> !(#[trigger] parts[i]).contains('\0'),
    ensures
        forall|i: int|
            0 <= i < non_empty(parts).len() ==> (#[trigger] non_empty(parts)[i]).len() > 0
                && !non_empty(parts)[i].contains('\0'),
    decreases parts.len(),
{
    if parts.len() > 0 {
        let rest = parts.drop_last();
        assert forall|i: int| 0 <= i < rest.len() implies !(#[trigger] rest[i]).contains('\0') by {
            assert(rest[i] == parts[i]);
        }
        lemma_non_empty(rest);
        assert(!parts[parts.len() - 1].contains('\0'));
        assert forall|i: int| 0 <= i < non_empty(parts).len() implies (
        #[trigger] non_empty(parts)[i]).len() > 0 && !non_empty(parts)[i].contains('\0') by {
            if i < non_empty(rest).len() {
                assert(non_empty(parts)[i] == non_empty(rest)[i]);
            }
        }
    }
}

/// The parts of two texts with a NUL character between them.
proof fn lemma_parts_concat(a: Seq<char>, b: Seq<char>)
    ensures
        nul_parts(a + seq!['\0'] + b) == nul_parts(a) + nul_parts(b),
    decreases b.len(),
{
    let s = a + seq!['\0'] + b;
    lemma_parts_plain(b);
    if b.len() == 0 {
        assert(s.drop_last() =~= a);
        assert(nul_parts(s) =~= nul_parts(a) + nul_parts(b));
    } else {
        let r = b.drop_last();
        lemma_parts_concat(a, r);
        lemma_parts_plain(r);
        assert(s.drop_last() =~= a + seq!['\0'] + r);
        assert(nul_parts(s) =~= nul_parts(a) + nul_parts(b));
    }
}

/// Leaving out the empty texts of two lists.
proof fn lemma_non_empty_concat(a: Seq<Seq<char>>, b: Seq<Seq<char>>)
    ensures
        non_empty(a + b) == non_empty(a) + non_empty(b),
    decreases b.len(),
{
    if b.len() == 0 {
        assert(a + b =~= a);
        assert(non_empty(a) + non_empty(b) =~= non_empty(a));
    } else {
        lemma_non_empty_concat(a, b.drop_last());
        assert((a + b).drop_last() =~= a + b.drop_last());
        assert(non_empty(a + b) =~= non_empty(a) + non_empty(b));
    }
}

/// A NUL character separates values: the values of two texts with one between them
/// are those of the first, then those of the second. A text without one is one
/// value, and the empty text is none.
pub proof fn law_values_separated(a: Seq<char>, b: Seq<char>)
    ensures
        values_of(a + seq!['\0'] + b) == values_of(a) + values_of(b),
        !a.contains('\0') && a.len() > 0 ==> values_of(a) == seq![a],
        a.len() == 0 ==> values_of(a) == Seq::<Seq<char>>::empty(),
{
    lemma_parts_concat(a, b);
    lemma_non_empty_concat(nul_parts(a), nul_parts(b));
    if !a.contains('\0') {
        assert forall|i: int| 0 <= i < a.len() implies a[i] != '\0' by {
            assert(a.contains(a[i]));
        }
        lemma_values_of(a, 0);
        assert(a.skip(0) =~= a);
        assert(Seq::<Seq<char>>::empty().push(a) =~= seq![a]);
    }
    if a.len() == 0 {
        assert(!a.contains('\0'));
    }
}

/// Splits a text at its NUL characters and keeps what is not empty.
pub fn split_values(s: &str) -> (r: Vec<String>)
    ensures
        text_views(r@) == values_of(s@),
{
    let mut r: Vec<String> = Vec::new();
    let mut start: usize = 0;
    let mut i: usize = 0;
    let n: usize = s.unicode_len();
    assert(text_views(r@) =~= Seq::<Seq<char>>::empty());
    for c in it: s.chars()
        invariant
            it.seq() == s@,
            i == it.index(),
            n == s@.len(),
            start <= i <= n,
            start == 0 || s@[start - 1] == '\0',
            forall|j: int| start <= j < i ==> s@[j] != '\0',
            text_views(r@) == if start == 0 {
                Seq::<Seq<char>>::empty()
            } else {
                values_of(s@.take(start - 1))
            },
    {
        let ghost before = r@;
        if c == '\0' {
            let ghost head = s@.take(i as int);
            proof {
                lemma_values_of(head, start as int);
                if start > 0 {
                    assert(head.take(start - 1) =~= s@.take(start - 1));
                }
            }
            if start < i {
                let part: &str = s.substring_char(start, i);
                assert(part@ =~= head.skip(start as int));
                r.push(part.to_owned());
                assert(text_views(r@) =~= text_views(before).push(part@));
            }
            start = i + 1;
        }
        i = i + 1;
    }
    proof {
        lemma_values_of(s@, start as int);
    }
    if start < n {
        let ghost before = r@;
        let part: &str = s.substring_char(start, n);
        assert(part@ =~= s@.skip(start as int));
        r.push(part.to_owned());
        assert(text_views(r@) =~= text_views(before).push(part@));
    }
    r
}

/// The character for a digit.
pub open spec fn digit_char(d: nat) -> char {
    (48 + d) as char
}

/// `n` in decimal.
pub open spec fn decimal(n: nat) -> Seq<char>
    decreases n,
{
    if n < 10 {
        seq![digit_char(n)]
    } else {
        decimal(n / 10).push(digit_char(n % 10))
    }
}

/// `n` in decimal, with a minus sign if it is negative.
pub open spec fn decimal_signed(n: int) -> Seq<char> {
    if n < 0 {
        seq!['-'] + decimal((-n) as nat)
    } else {
        decimal(n as nat)
    }
}

/// The number that a text of digits stands for.
pub open spec fn decimal_value(s: Seq<char>) -> nat
    decreases s.len(),
{
    if s.len() == 0 {
        0
    } else {
        decimal_value(s.drop_last()) * 10 + (s.last() as nat - 48) as nat
    }
}

/// Whether `c` is a digit.
pub open spec fn is_digit(c: char) -> bool {
    '0' <= c <= '9'
}

/// The number that a text stands for, if it consists of digits.
pub open spec fn digits_value(s: Seq<char>) -> Option<nat> {
    if s.len() > 0 && (forall|i: int| 0 <= i < s.len() ==> is_digit(#[trigger] s[i])) {
        Some(decimal_value(s))
    } else {
        None
    }
}

/// A text without the plus sign it may begin with.
pub open spec fn without_plus(s: Seq<char>) -> Seq<char> {
    if s.len() > 0 && s[0] == '+' {
        s.skip(1)
    } else {
        s
    }
}

/// Reading a number in decimal gives the number back.
pub proof fn law_decimal_read_back(n: nat)
    ensures
        decimal_value(decimal(n)) == n,
        decimal(n).len() > 0,
        forall|i: int| 0 <= i < decimal(n).len() ==> is_digit(#[trigger] decimal(n)[i]),
    decreases n,
{
    reveal_with_fuel(decimal_value, 2);
    if n < 10 {
        assert(decimal(n).drop_last() =~= Seq::empty());
    } else {
        law_decimal_read_back(n / 10);
        assert(decimal(n).drop_last() =~= decimal(n / 10));
    }
}

/// The text for one digit.
fn digit_text(d: u64) -> (r: &'static str)
    requires
        d < 10,
    ensures
        r@ == seq![digit_char(d as nat)],
{
    proof {
        reveal_strlit("0");
        reveal_strlit("1");
        reveal_strlit("2");
        reveal_strlit("3");
        reveal_strlit("4");
        reveal_strlit("5");
        reveal_strlit("6");
        reveal_strlit("7");
        reveal_strlit("8");
        reveal_strlit("9");
    }
    if d == 0 {
        "0"
    } else if d == 1 {
        "1"
    } else if d == 2 {
        "2"
    } else if d == 3 {
        "3"
    } else if d == 4 {
        "4"
    } else if d == 5 {
        "5"
    } else if d == 6 {
        "6"
    } else if d == 7 {
        "7"
    } else if d == 8 {
        "8"
    } else {
        "9"
    }
}

/// Writes a number in decimal.
pub fn to_decimal(n: u64) -> (r: String)
    ensures
        r@ == decimal(n as nat),
    decreases n,
{
    if n < 10 {
        digit_text(n).to_owned()
    } else {
        let mut r: String = to_decimal(n / 10);
        r.append(digit_text(n % 10));
        assert(r@ =~= decimal(n as nat));
        r
    }
}

/// Writes a number in decimal, with a minus sign if it is negative.
pub fn to_decimal_signed(n: i32) -> (r: String)
    ensures
        r@ == decimal_signed(n as int),
{
    if n < 0 {
        proof {
            reveal_strlit("-");
        }
        let mut r: String = "-".to_owned();
        r.append(to_decimal((-(n as i64)) as u64).as_str());
        assert(r@ =~= decimal_signed(n as int));
        r
    } else {
        to_decimal(n as u64)
    }
}

/// A number in decimal is written without zeros before it, and a negative one begins
/// with a minus sign, which no other does.
pub proof fn law_decimal_plain(n: int)
    ensures
        n > 0 ==> decimal_signed(n)[0] != '0',
        n >= 0 ==> decimal_signed(n) == decimal(n as nat),
        n == 0 ==> decimal_signed(n) == seq!['0'],
        n < 0 ==> decimal_signed(n)[0] == '-' && decimal_signed(n).skip(1) == decimal(-n as nat)
            && decimal_signed(n)[1] != '0',
        n >= 0 ==> decimal_signed(n)[0] != '-',
{
    let m = if n < 0 {
        -n
    } else {
        n
    };
    lemma_no_zeros(m as nat);
    law_decimal_read_back(m as nat);
    assert(is_digit(decimal(m as nat)[0]));
    if n < 0 {
        assert(decimal_signed(n).skip(1) =~= decimal(m as nat));
    }
}

/// No zeros before a number in decimal.
proof fn lemma_no_zeros(n: nat)
    ensures
        decimal(n).len() > 0,
        n > 0 ==> decimal(n)[0] != '0',
    decreases n,
{
    if n >= 10 {
        lemma_no_zeros(n / 10);
    }
}

} // verus!
