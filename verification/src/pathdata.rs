//! The geometry string of a unit square, written and read back.

use vstd::prelude::*;

verus! {

/// The character of a decimal digit.
pub open spec fn digit_char(d: nat) -> char
    recommends
        d < 10,
{
    ('0' as int + d) as char
}

/// `n` in decimal: no sign, and no leading zero but for zero itself.
pub open spec fn decimal(n: nat) -> Seq<char>
    decreases n,
{
    if n < 10 {
        seq![digit_char(n)]
    } else {
        decimal(n / 10).push(digit_char(n % 10))
    }
}

/// The geometry of the unit square whose top-left corner is `(x, y)`: move
/// there, draw one unit right, one down, one left, and close the path.
pub open spec fn path_data(x: nat, y: nat) -> Seq<char> {
    "M "@ + decimal(x) + " "@ + decimal(y) + " h 1 v 1 h -1 z"@
}

/// Whether `c` is a decimal digit.
pub open spec fn is_digit(c: char) -> bool {
    '0' <= c <= '9'
}

/// The number that a decimal digit stands for.
pub open spec fn digit_value(c: char) -> nat
    recommends
        is_digit(c),
{
    (c as int - '0' as int) as nat
}

/// The number that a run of decimal digits stands for.
pub open spec fn value_of(s: Seq<char>) -> nat
    decreases s.len(),
{
    if s.len() == 0 {
        0
    } else {
        value_of(s.drop_last()) * 10 + digit_value(s.last())
    }
}

/// Whether `s` is a number the way [`decimal`] writes one: at least one
/// digit, nothing but digits, and no leading zero on a longer number.
pub open spec fn is_decimal(s: Seq<char>) -> bool {
    &&& s.len() >= 1
    &&& forall|i: int| 0 <= i < s.len() ==> is_digit(#[trigger] s[i])
    &&& s.len() > 1 ==> s[0] != '0'
}

/// What [`decimal`] writes is a decimal number, and it reads back as `n`.
pub proof fn lemma_decimal_reads_back(n: nat)
    ensures
        is_decimal(decimal(n)),
        value_of(decimal(n)) == n,
        n >= 10 ==> decimal(n).len() > 1,
    decreases n,
{
    if n < 10 {
        assert(decimal(n).drop_last() =~= Seq::<char>::empty());
        assert(value_of(decimal(n).drop_last()) == 0);
    } else {
        lemma_decimal_reads_back(n / 10);
        let head = decimal(n / 10);
        assert(decimal(n).drop_last() =~= head);
        assert(decimal(n)[0] == head[0]);
        if head.len() == 1 {
            assert(value_of(head.drop_last()) == 0) by {
                assert(head.drop_last() =~= Seq::<char>::empty());
            }
        }
    }
}

/// A decimal number without a leading zero is not zero.
proof fn lemma_value_positive(s: Seq<char>)
    requires
        s.len() >= 1,
        forall|i: int| 0 <= i < s.len() ==> is_digit(#[trigger] s[i]),
        s[0] != '0',
    ensures
        value_of(s) >= 1,
    decreases s.len(),
{
    assert(is_digit(s[s.len() - 1]));
    if s.len() == 1 {
        assert(s.drop_last() =~= Seq::<char>::empty());
        assert(value_of(s.drop_last()) == 0);
    } else {
        assert(s.drop_last()[0] == s[0]);
        lemma_value_positive(s.drop_last());
    }
}

/// A decimal number is what [`decimal`] writes for its value.
pub proof fn lemma_decimal_of_value(s: Seq<char>)
    requires
        is_decimal(s),
    ensures
        decimal(value_of(s)) == s,
    decreases s.len(),
{
    let head = s.drop_last();
    assert(is_digit(s[s.len() - 1]));
    if s.len() == 1 {
        assert(head =~= Seq::<char>::empty());
        assert(value_of(head) == 0);
        assert(decimal(value_of(s)) =~= s);
    } else {
        assert(head[0] == s[0]);
        assert(is_decimal(head));
        lemma_decimal_of_value(head);
        lemma_value_positive(head);
        let v = value_of(s);
        assert(v / 10 == value_of(head) && v % 10 == digit_value(s.last()));
        assert(decimal(v) =~= s);
    }
}

/// The one-character string of a decimal digit.
fn digit_str(d: u32) -> (s: &'static str)
    requires
        d < 10,
    ensures
        s@ == seq![digit_char(d as nat)],
{
    proof {
        reveal_strlit("0");
        reveal_strlit("1");
        reveal_strlit("2");
        reveal_strlit("3");
        reveal_strlit("4");
        reveal_strlit("5");
        reveal_strlit("6");
        reveal_strlit("7");
        reveal_strlit("8");
        reveal_strlit("9");
    }
    let s: &'static str = match d {
        0 => "0",
        1 => "1",
        2 => "2",
        3 => "3",
        4 => "4",
        5 => "5",
        6 => "6",
        7 => "7",
        8 => "8",
        _ => "9",
    };
    assert(s@ =~= seq![digit_char(d as nat)]);
    s
}

/// Appends `n` in decimal to `s`.
fn append_decimal(s: &mut String, n: u32)
    ensures
        final(s)@ == old(s)@ + decimal(n as nat),
    decreases n,
{
    if n >= 10 {
        append_decimal(s, n / 10);
    }
    s.append(digit_str(n % 10));
    assert(s@ =~= old(s)@ + decimal(n as nat));
}

/// Writes `n` in decimal.
pub fn decimal_string(n: u32) -> (s: String)
    ensures
        s@ == decimal(n as nat),
{
    let mut s = String::new();
    append_decimal(&mut s, n);
    assert(s@ =~= decimal(n as nat));
    s
}

/// Writes the geometry of the unit square whose top-left corner is `(x, y)`.
pub fn unit_square_data(x: u32, y: u32) -> (d: String)
    ensures
        d@ == path_data(x as nat, y as nat),
{
    let mut d = String::from_str("M ");
    append_decimal(&mut d, x);
    d.append(" ");
    append_decimal(&mut d, y);
    d.append(" h 1 v 1 h -1 z");
    d
}

/// An axis-aligned square, by its top-left corner `(x0, y0)` and its
/// bottom-right corner `(x1, y1)`.
#[derive(Clone, Copy, Debug, PartialEq, Eq, Structural)]
pub struct Square {
    pub x0: u64,
    pub y0: u64,
    pub x1: u64,
    pub y1: u64,
}

/// The unit square whose top-left corner is `(x, y)`.
pub open spec fn unit_square_at(x: u32, y: u32) -> Square {
    Square { x0: x as u64, y0: y as u64, x1: (x + 1) as u64, y1: (y + 1) as u64 }
}

/// The square that a geometry string draws: the unit square at `(x, y)` if
/// the string is the geometry of that square, and none if it is the geometry
/// of no unit square at 32-bit coordinates.
pub open spec fn decoded(d: Seq<char>) -> Option<Square> {
    if exists|x: u32, y: u32| d == #[trigger] path_data(x as nat, y as nat) {
        let (x, y) = choose|x: u32, y: u32| d == #[trigger] path_data(x as nat, y as nat);
        Some(unit_square_at(x, y))
    } else {
        None
    }
}

/// Where the longest run of digits that starts at `from` ends.
pub open spec fn run_end(s: Seq<char>, from: int) -> int
    decreases s.len() - from,
{
    if 0 <= from < s.len() && is_digit(s[from]) {
        run_end(s, from + 1)
    } else {
        from
    }
}

/// The anchor that a geometry string names, read from left to right: `M `,
/// a number, a space, a number, and the four strokes of the square, with
/// nothing before, between or behind them.
pub open spec fn anchor_of(d: Seq<char>) -> Option<(u32, u32)> {
    let e1 = run_end(d, 2);
    let first = d.subrange(2, e1);
    let e2 = run_end(d, e1 + 1);
    let second = d.subrange(e1 + 1, e2);
    if d.len() >= 2 && d.subrange(0, 2) == "M "@ && is_decimal(first) && value_of(first)
        <= u32::MAX && e1 < d.len() && d[e1] == ' ' && is_decimal(second) && value_of(second)
        <= u32::MAX && d.subrange(e2, d.len() as int) == " h 1 v 1 h -1 z"@ {
        Some((value_of(first) as u32, value_of(second) as u32))
    } else {
        None
    }
}

/// A run of digits ends inside the string, and not before it starts.
pub proof fn lemma_run_end_bounds(s: Seq<char>, from: int)
    requires
        0 <= from <= s.len(),
    ensures
        from <= run_end(s, from) <= s.len(),
        forall|i: int| from <= i < run_end(s, from) ==> is_digit(#[trigger] s[i]),
        run_end(s, from) < s.len() ==> !is_digit(s[run_end(s, from)]),
    decreases s.len() - from,
{
    if from < s.len() && is_digit(s[from]) {
        lemma_run_end_bounds(s, from + 1);
    }
}

/// Digits from `from` up to `to`, and no digit at `to`: the run ends at `to`.
pub proof fn lemma_run_end_is(s: Seq<char>, from: int, to: int)
    requires
        0 <= from <= to <= s.len(),
        forall|i: int| from <= i < to ==> is_digit(#[trigger] s[i]),
        to < s.len() ==> !is_digit(s[to]),
    ensures
        run_end(s, from) == to,
    decreases to - from,
{
    if from < to {
        assert(is_digit(s[from]));
        lemma_run_end_is(s, from + 1, to);
    }
}

/// A string from which an anchor is read is the geometry of the unit square there.
pub proof fn lemma_anchor_sound(d: Seq<char>)
    requires
        anchor_of(d) is Some,
    ensures
        d == path_data(anchor_of(d).unwrap().0 as nat, anchor_of(d).unwrap().1 as nat),
{
    reveal_strlit(" ");
    let e1 = run_end(d, 2);
    let first = d.subrange(2, e1);
    lemma_run_end_bounds(d, 2);
    lemma_run_end_bounds(d, e1 + 1);
    let e2 = run_end(d, e1 + 1);
    let second = d.subrange(e1 + 1, e2);
    lemma_decimal_of_value(first);
    lemma_decimal_of_value(second);
    assert(d =~= d.subrange(0, 2) + first + " "@ + second + d.subrange(e2, d.len() as int));
}

/// From the geometry of the unit square at `(x, y)` the anchor `(x, y)` is read.
pub proof fn lemma_anchor_complete(x: u32, y: u32)
    ensures
        anchor_of(path_data(x as nat, y as nat)) == Some((x, y)),
{
    reveal_strlit("M ");
    reveal_strlit(" ");
    reveal_strlit(" h 1 v 1 h -1 z");
    let d = path_data(x as nat, y as nat);
    let a = decimal(x as nat);
    let b = decimal(y as nat);
    lemma_decimal_reads_back(x as nat);
    lemma_decimal_reads_back(y as nat);
    let e1: int = 2 + a.len() as int;
    let e2: int = e1 + 1 + b.len() as int;
    assert(d.len() == e2 + 15);
    assert forall|i: int| 2 <= i < e1 implies is_digit(#[trigger] d[i]) by {
        assert(d[i] == a[i - 2]);
    }
    assert(d[e1] == ' ');
    lemma_run_end_is(d, 2, e1);
    assert forall|i: int| e1 + 1 <= i < e2 implies is_digit(#[trigger] d[i]) by {
        assert(d[i] == b[i - e1 - 1]);
    }
    assert(d[e2] == ' ');
    lemma_run_end_is(d, e1 + 1, e2);
    assert(d.subrange(0, 2) =~= "M "@);
    assert(d.subrange(2, e1) =~= a);
    assert(d.subrange(e1 + 1, e2) =~= b);
    assert(d.subrange(e2, d.len() as int) =~= " h 1 v 1 h -1 z"@);
}

/// The square that a string draws is the unit square at the anchor read from it.
pub proof fn lemma_decoded_is_anchor(d: Seq<char>)
    ensures
        decoded(d) == match anchor_of(d) {
            Some((x, y)) => Some(unit_square_at(x, y)),
            None => None,
        },
{
    match anchor_of(d) {
        Some((x, y)) => {
            lemma_anchor_sound(d);
            assert(d == path_data(x as nat, y as nat));
            let (cx, cy) = choose|x: u32, y: u32| d == #[trigger] path_data(x as nat, y as nat);
            lemma_anchor_complete(cx, cy);
        },
        None => {
            if exists|x: u32, y: u32| d == #[trigger] path_data(x as nat, y as nat) {
                let (cx, cy) = choose|x: u32, y: u32| d == #[trigger] path_data(x as nat, y as nat);
                lemma_anchor_complete(cx, cy);
            }
        },
    }
}

/// The geometry of every emitted square reads back as exactly that square:
/// the unit square with corners `(x, y)` and `(x + 1, y + 1)`.
pub proof fn lemma_path_data_round_trip(x: u32, y: u32)
    ensures
        decoded(path_data(x as nat, y as nat)) == Some(unit_square_at(x, y)),
        unit_square_at(x, y).x0 == x && unit_square_at(x, y).y0 == y,
        unit_square_at(x, y).x1 == x + 1 && unit_square_at(x, y).y1 == y + 1,
{
    lemma_anchor_complete(x, y);
    lemma_decoded_is_anchor(path_data(x as nat, y as nat));
}

/// Two squares with the same geometry are the same square.
pub proof fn lemma_path_data_injective(x: u32, y: u32, u: u32, v: u32)
    requires
        path_data(x as nat, y as nat) == path_data(u as nat, v as nat),
    ensures
        x == u && y == v,
{
    lemma_anchor_complete(x, y);
    lemma_anchor_complete(u, v);
}


/// `bytes` are the characters of `text`, which are all ASCII, one byte each.
pub open spec fn spells(bytes: Seq<u8>, text: Seq<char>) -> bool {
    &&& bytes.len() == text.len()
    &&& forall|i: int|
        #![trigger bytes[i]]
        #![trigger text[i]]
        0 <= i < text.len() ==> '\0' <= text[i] <= '\u{7f}' && bytes[i] == text[i] as u8
}

/// A longer run of digits does not stand for a smaller number.
proof fn lemma_value_monotone(s: Seq<char>, from: int, mid: int, to: int)
    requires
        0 <= from <= mid <= to <= s.len(),
    ensures
        value_of(s.subrange(from, mid)) <= value_of(s.subrange(from, to)),
    decreases to - mid,
{
    if mid < to {
        lemma_value_monotone(s, from, mid, to - 1);
        assert(s.subrange(from, to).drop_last() =~= s.subrange(from, to - 1));
    }
}

/// The geometry of a unit square is written in ASCII.
proof fn lemma_path_data_ascii(x: nat, y: nat)
    ensures
        vstd::utf8::is_ascii_chars(path_data(x, y)),
{
    reveal_strlit("M ");
    reveal_strlit(" ");
    reveal_strlit(" h 1 v 1 h -1 z");
    lemma_decimal_reads_back(x);
    lemma_decimal_reads_back(y);
    let d = path_data(x, y);
    let a = decimal(x);
    let b = decimal(y);
    let e1: int = 2 + a.len() as int;
    let e2: int = e1 + 1 + b.len() as int;
    let tail = " h 1 v 1 h -1 z"@;
    assert forall|i: int| 0 <= i < d.len() implies '\0' <= #[trigger] d[i] <= '\u{7f}' by {
        if i < 2 {
        } else if i < e1 {
            assert(d[i] == a[i - 2]);
            assert(is_digit(a[i - 2]));
        } else if i == e1 {
        } else if i < e2 {
            assert(d[i] == b[i - e1 - 1]);
            assert(is_digit(b[i - e1 - 1]));
        } else {
            assert(d[i] == tail[i - e2]);
        }
    }
}

/// Whether `pattern` stands in the text at `from`.
fn matches_at(bytes: &[u8], from: usize, pattern: &str, Ghost(text): Ghost<Seq<char>>) -> (b: bool)
    requires
        spells(bytes@, text),
        pattern.is_ascii(),
        from <= bytes@.len(),
    ensures
        b == (from + pattern@.len() <= text.len() && text.subrange(
            from as int,
            from + pattern@.len(),
        ) == pattern@),
{
    broadcast use vstd::string::is_ascii_spec_bytes;

    let wanted = pattern.as_bytes();
    let m: usize = wanted.len();
    if m > bytes.len() - from {
        return false;
    }
    let mut i: usize = 0;
    while i < m
        invariant
            i <= m,
            m == pattern@.len(),
            from + m <= bytes@.len() <= usize::MAX,
            spells(bytes@, text),
            spells(wanted@, pattern@),
            text.subrange(from as int, from + i) == pattern@.subrange(0, i as int),
        decreases m - i,
    {
        if bytes[from + i] != wanted[i] {
            assert(text[from + i] != pattern@[i as int]);
            assert(text.subrange(from as int, from + m)[i as int] == text[from + i]);
            return false;
        }
        assert(text[from + i] == pattern@[i as int]);
        i += 1;
        assert(text.subrange(from as int, from + i) =~= pattern@.subrange(0, i as int)) by {
            assert(text.subrange(from as int, from + i).drop_last() =~= text.subrange(
                from as int,
                from + i - 1,
            ));
            assert(pattern@.subrange(0, i as int).drop_last() =~= pattern@.subrange(0, i - 1));
        }
    }
    assert(pattern@.subrange(0, m as int) =~= pattern@);
    true
}

/// Reads the decimal number that starts at `from`: its value, and where it ends.
fn read_number(bytes: &[u8], from: usize, Ghost(text): Ghost<Seq<char>>) -> (res: Option<
    (u32, usize),
>)
    requires
        spells(bytes@, text),
        from <= bytes@.len(),
    ensures
        res == {
            let end = run_end(text, from as int);
            let run = text.subrange(from as int, end);
            if is_decimal(run) && value_of(run) <= u32::MAX {
                Some((value_of(run) as u32, end as usize))
            } else {
                None
            }
        },
{
    let n: usize = bytes.len();
    let mut i: usize = from;
    let mut value: u64 = 0;
    assert(text.subrange(from as int, from as int) =~= Seq::<char>::empty());
    while i < n && 48 <= bytes[i] && bytes[i] <= 57
        invariant
            from <= i <= n,
            n == text.len(),
            spells(bytes@, text),
            forall|j: int| from <= j < i ==> is_digit(#[trigger] text[j]),
            value == value_of(text.subrange(from as int, i as int)),
            value <= u32::MAX,
        decreases n - i,
    {
        let digit: u64 = (bytes[i] - 48) as u64;
        let next: u64 = value * 10 + digit;
        proof {
            assert(is_digit(text[i as int]));
            assert(digit == digit_value(text[i as int]));
            assert(text.subrange(from as int, i + 1).drop_last() =~= text.subrange(
                from as int,
                i as int,
            ));
            assert(next == value_of(text.subrange(from as int, i + 1)));
        }
        if next > u32::MAX as u64 {
            proof {
                lemma_run_end_bounds(text, from as int);
                let end = run_end(text, from as int);
                if end < i + 1 {
                    assert(is_digit(text[end]));
                }
                lemma_value_monotone(text, from as int, i + 1, end);
            }
            return None;
        }
        value = next;
        i += 1;
    }
    proof {
        if i < n {
            assert(!is_digit(text[i as int]));
        }
        lemma_run_end_is(text, from as int, i as int);
        let run = text.subrange(from as int, i as int);
        assert forall|j: int| 0 <= j < run.len() implies is_digit(#[trigger] run[j]) by {
            assert(run[j] == text[from + j]);
        }
    }
    if i == from {
        return None;
    }
    if i - from > 1 && bytes[from] == 48 {
        assert(text.subrange(from as int, i as int)[0] == '0');
        return None;
    }
    assert(text.subrange(from as int, i as int)[0] == text[from as int]);
    Some((value as u32, i))
}

/// Reads the anchor of a unit square from its geometry.
pub fn read_anchor(d: &str) -> (res: Option<(u32, u32)>)
    ensures
        res == anchor_of(d@),
{
    broadcast use vstd::string::is_ascii_spec_bytes;

    if !d.is_ascii() {
        proof {
            if anchor_of(d@) is Some {
                lemma_anchor_sound(d@);
                lemma_path_data_ascii(
                    anchor_of(d@).unwrap().0 as nat,
                    anchor_of(d@).unwrap().1 as nat,
                );
            }
        }
        return None;
    }
    let bytes = d.as_bytes();
    let ghost text = d@;
    let n: usize = bytes.len();
    proof {
        reveal_strlit("M ");
        reveal_strlit(" h 1 v 1 h -1 z");
        assert(spells(bytes@, text));
    }
    if !matches_at(bytes, 0, "M ", Ghost(text)) {
        return None;
    }
    let (x, e1) = match read_number(bytes, 2, Ghost(text)) {
        Some(number) => number,
        None => {
            return None;
        },
    };
    proof {
        lemma_run_end_bounds(text, 2);
    }
    if e1 >= n || bytes[e1] != 32 {
        return None;
    }
    let (y, e2) = match read_number(bytes, e1 + 1, Ghost(text)) {
        Some(number) => number,
        None => {
            return None;
        },
    };
    proof {
        lemma_run_end_bounds(text, e1 + 1);
    }
    if n - e2 != 15 || !matches_at(bytes, e2, " h 1 v 1 h -1 z", Ghost(text)) {
        assert(text.subrange(e2 as int, n as int).len() == n - e2);
        return None;
    }
    Some((x, y))
}

/// Reads a geometry string back: the square that it draws, if it is the
/// geometry of a unit square at 32-bit coordinates, and nothing otherwise.
pub fn decode_path_data(d: &str) -> (res: Option<Square>)
    ensures
        res == decoded(d@),
{
    proof {
        lemma_decoded_is_anchor(d@);
    }
    match read_anchor(d) {
        Some((x, y)) => Some(
            Square { x0: x as u64, y0: y as u64, x1: x as u64 + 1, y1: y as u64 + 1 },
        ),
        None => None,
    }
}

} // verus!
