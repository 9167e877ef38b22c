use vstd::prelude::*;
use vstd::string::{StrSliceExecFns, StringExecFns};
use crate::cell::{Cell, EyeType};
use crate::organism::AnatomyCell;

verus! {

/// The decimal digit standing for a value in 0..=9.
pub open spec fn digit_char(d: int) -> char {
    if d == 0 {
        '0'
    } else if d == 1 {
        '1'
    } else if d == 2 {
        '2'
    } else if d == 3 {
        '3'
    } else if d == 4 {
        '4'
    } else if d == 5 {
        '5'
    } else if d == 6 {
        '6'
    } else if d == 7 {
        '7'
    } else if d == 8 {
        '8'
    } else {
        '9'
    }
}

/// True of a decimal digit character.
pub open spec fn is_digit(c: char) -> bool {
    '0' <= c && c <= '9'
}

/// The value of a decimal digit character.
pub open spec fn digit_val(c: char) -> int {
    c as int - 48
}

/// The decimal rendering of a non-negative integer, most significant
/// digit first.
pub open spec fn dec_u(n: int) -> Seq<char>
    decreases n,
{
    if n < 10 {
        seq![digit_char(if n < 0 { 0 } else { n })]
    } else {
        dec_u(n / 10) + seq![digit_char(n % 10)]
    }
}

/// The decimal rendering of an integer, with a leading minus sign when
/// negative.
pub open spec fn dec_i(n: int) -> Seq<char> {
    if n < 0 {
        seq!['-'] + dec_u(-n)
    } else {
        dec_u(n)
    }
}

/// True of a non-empty string of decimal digits.
pub open spec fn all_digits(s: Seq<char>) -> bool {
    s.len() > 0 && forall|i: int| 0 <= i < s.len() ==> is_digit(#[trigger] s[i])
}

/// The value of a digit string, most significant digit first.
pub open spec fn digits_val(s: Seq<char>) -> int
    decreases s.len(),
{
    if s.len() == 0 {
        0
    } else {
        digits_val(s.drop_last()) * 10 + digit_val(s.last())
    }
}

/// How a 32-bit integer is read from text: an optional sign followed by
/// at least one digit, rejected on any other character or when the value
/// leaves the type's range.
pub open spec fn parse_i32_spec(s: Seq<char>) -> Option<i32> {
    let body = if s.len() > 0 && (s[0] == '-' || s[0] == '+') {
        s.skip(1)
    } else {
        s
    };
    let neg = s.len() > 0 && s[0] == '-';
    if !all_digits(body) {
        Option::None
    } else {
        let v = if neg {
            -digits_val(body)
        } else {
            digits_val(body)
        };
        if i32::MIN <= v <= i32::MAX {
            Option::Some(v as i32)
        } else {
            Option::None
        }
    }
}

/// The text name of an eye facing.
pub open spec fn eye_name(e: EyeType) -> Seq<char> {
    match e {
        EyeType::Up => seq!['U', 'p'],
        EyeType::Down => seq!['D', 'o', 'w', 'n'],
        EyeType::Left => seq!['L', 'e', 'f', 't'],
        EyeType::Right => seq!['R', 'i', 'g', 'h', 't'],
    }
}

/// The eye facing a name stands for, if any.
pub open spec fn eye_from_name(s: Seq<char>) -> Option<EyeType> {
    if s == eye_name(EyeType::Up) {
        Option::Some(EyeType::Up)
    } else if s == eye_name(EyeType::Down) {
        Option::Some(EyeType::Down)
    } else if s == eye_name(EyeType::Left) {
        Option::Some(EyeType::Left)
    } else if s == eye_name(EyeType::Right) {
        Option::Some(EyeType::Right)
    } else {
        Option::None
    }
}

/// The text name of a cell type, as the anatomy encoding writes it.
pub open spec fn cell_name(c: Cell) -> Seq<char> {
    match c {
        Cell::Empty => seq!['E', 'm', 'p', 't', 'y'],
        Cell::Body => seq!['B', 'o', 'd', 'y'],
        Cell::Mouth => seq!['M', 'o', 'u', 't', 'h'],
        Cell::Producer => seq!['P', 'r', 'o', 'd', 'u', 'c', 'e', 'r'],
        Cell::Mover => seq!['M', 'o', 'v', 'e', 'r'],
        Cell::Killer => seq!['K', 'i', 'l', 'l', 'e', 'r'],
        Cell::Armor => seq!['A', 'r', 'm', 'o', 'r'],
        Cell::Eye(e) => seq!['E', 'y', 'e', '('] + eye_name(e) + seq![')'],
        Cell::Brain => seq!['B', 'r', 'a', 'i', 'n'],
    }
}

/// The cell type a name stands for, if any: the six plain functional
/// names, or `Eye(...)` around an eye facing. The structural names
/// (`Empty`, `Body`) are not recognized, as in the encoding's reader.
pub open spec fn cell_from_name(s: Seq<char>) -> Option<Cell> {
    if s == cell_name(Cell::Mouth) {
        Option::Some(Cell::Mouth)
    } else if s == cell_name(Cell::Producer) {
        Option::Some(Cell::Producer)
    } else if s == cell_name(Cell::Mover) {
        Option::Some(Cell::Mover)
    } else if s == cell_name(Cell::Killer) {
        Option::Some(Cell::Killer)
    } else if s == cell_name(Cell::Armor) {
        Option::Some(Cell::Armor)
    } else if s == cell_name(Cell::Brain) {
        Option::Some(Cell::Brain)
    } else if s.len() >= 5 && s.take(4) == seq!['E', 'y', 'e', '('] && s.last() == ')' {
        match eye_from_name(s.subrange(4, s.len() - 1)) {
            Option::Some(e) => Option::Some(Cell::Eye(e)),
            Option::None => Option::None,
        }
    } else {
        Option::None
    }
}

/// Splits on commas: `cur` is the token being gathered.
pub open spec fn split_rec(s: Seq<char>, cur: Seq<char>) -> Seq<Seq<char>>
    decreases s.len(),
{
    if s.len() == 0 {
        seq![cur]
    } else if s[0] == ',' {
        seq![cur] + split_rec(s.skip(1), Seq::empty())
    } else {
        split_rec(s.skip(1), cur.push(s[0]))
    }
}

/// The comma-separated tokens of a string; a trailing comma yields a
/// trailing empty token.
pub open spec fn split_commas(s: Seq<char>) -> Seq<Seq<char>> {
    split_rec(s, Seq::empty())
}

/// Reads tokens three at a time as (dx, dy, cell-name) triples; a triple
/// that fails to parse is dropped, and one or two leftover tokens are
/// ignored.
pub open spec fn decode_parts(parts: Seq<Seq<char>>) -> Seq<AnatomyCell>
    decreases parts.len(),
{
    if parts.len() >= 3 {
        let head: Seq<AnatomyCell> = match (
            parse_i32_spec(parts[0]),
            parse_i32_spec(parts[1]),
            cell_from_name(parts[2]),
        ) {
            (Option::Some(dx), Option::Some(dy), Option::Some(c)) => seq![(dx, dy, c)],
            _ => Seq::empty(),
        };
        head + decode_parts(parts.skip(3))
    } else {
        Seq::empty()
    }
}

/// What decoding an anatomy string yields.
pub open spec fn decode_spec(s: Seq<char>) -> Seq<AnatomyCell> {
    decode_parts(split_commas(s))
}

/// The encoding of one anatomy cell: `dx,dy,Name,`.
pub open spec fn enc_triple(c: AnatomyCell) -> Seq<char> {
    dec_i(c.0 as int) + seq![','] + dec_i(c.1 as int) + seq![','] + cell_name(c.2) + seq![',']
}

/// The encoding of a whole anatomy: the triples in order.
pub open spec fn enc_anatomy(cells: Seq<AnatomyCell>) -> Seq<char>
    decreases cells.len(),
{
    if cells.len() == 0 {
        Seq::empty()
    } else {
        enc_triple(cells[0]) + enc_anatomy(cells.skip(1))
    }
}

/// The characters of a string slice, in order.
pub(crate) fn str_chars(s: &str) -> (r: Vec<char>)
    ensures
        r@ == s@,
{
    let n = s.unicode_len();
    let mut r: Vec<char> = Vec::new();
    let mut i: usize = 0;
    while i < n
        invariant
            n == s@.len(),
            i <= n,
            r@ == s@.take(i as int),
        decreases n - i,
    {
        let c = s.get_char(i);
        r.push(c);
        i = i + 1;
    }
    proof {
        assert(r@ =~= s@);
    }
    r
}

/// The sequence of views of a list of tokens.
pub open spec fn views_of(parts: Seq<Vec<char>>) -> Seq<Seq<char>> {
    Seq::new(parts.len(), |t: int| parts[t]@)
}

/// Splits a character list on commas.
fn split_chars(v: &Vec<char>) -> (parts: Vec<Vec<char>>)
    ensures
        views_of(parts@) == split_commas(v@),
{
    let mut parts: Vec<Vec<char>> = Vec::new();
    let mut cur: Vec<char> = Vec::new();
    let mut i: usize = 0;
    proof {
        assert(v@.skip(0) =~= v@);
        assert(views_of(parts@) =~= Seq::<Seq<char>>::empty());
        assert(views_of(parts@) + split_rec(v@, Seq::empty()) =~= split_rec(v@, Seq::empty()));
    }
    while i < v.len()
        invariant
            i <= v@.len(),
            split_commas(v@) == views_of(parts@) + split_rec(v@.skip(i as int), cur@),
        decreases v@.len() - i,
    {
        let ghost ppre = parts@;
        let ghost cpre = cur@;
        let c = v[i];
        if c == ',' {
            parts.push(cur);
            cur = Vec::new();
        } else {
            cur.push(c);
        }
        i = i + 1;
        proof {
            assert(v@.skip(i - 1).len() > 0);
            assert(v@.skip(i - 1)[0] == v@[i - 1]);
            assert(v@.skip(i - 1).skip(1) =~= v@.skip(i as int));
            if c == ',' {
                assert(split_rec(v@.skip(i - 1), cpre) == seq![cpre] + split_rec(
                    v@.skip(i as int),
                    Seq::empty(),
                ));
                assert(views_of(parts@) =~= views_of(ppre) + seq![cpre]);
                assert(views_of(parts@) + split_rec(v@.skip(i as int), cur@) =~= views_of(ppre)
                    + split_rec(v@.skip(i - 1), cpre));
            } else {
                assert(split_rec(v@.skip(i - 1), cpre) == split_rec(
                    v@.skip(i as int),
                    cpre.push(c),
                ));
                assert(cur@ =~= cpre.push(c));
            }
        }
    }
    proof {
        assert(v@.skip(v@.len() as int) =~= Seq::<char>::empty());
        assert(split_rec(v@.skip(v@.len() as int), cur@) == seq![cur@]);
    }
    let ghost ppre = parts@;
    let ghost cfin = cur@;
    parts.push(cur);
    proof {
        assert(views_of(parts@) =~= views_of(ppre) + seq![cfin]);
        assert(views_of(parts@) =~= split_commas(v@));
    }
    parts
}

/// Reads a 32-bit integer from a character list, as `parse_i32_spec`
/// says.
fn parse_i32_chars(s: &Vec<char>) -> (r: Option<i32>)
    ensures
        r == parse_i32_spec(s@),
{
    let n = s.len();
    if n == 0 {
        return None;
    }
    let first = s[0];
    let neg = first == '-';
    let start: usize = if first == '-' || first == '+' {
        1
    } else {
        0
    };
    if start >= n {
        return None;
    }
    let ghost body = if first == '-' || first == '+' {
        s@.skip(1)
    } else {
        s@
    };
    let mut acc: i64 = 0;
    let mut i: usize = start;
    while i < n
        invariant
            n == s@.len(),
            start <= i <= n,
            start == if s@[0] == '-' || s@[0] == '+' {
                1int
            } else {
                0int
            },
            body == s@.subrange(start as int, n as int),
            forall|t: int| start <= t < i ==> is_digit(#[trigger] s@[t]),
            0 <= acc <= 2147483649,
            acc == if digits_val(s@.subrange(start as int, i as int)) <= 2147483648 {
                digits_val(s@.subrange(start as int, i as int))
            } else {
                2147483649int
            },
        decreases n - i,
    {
        let c = s[i];
        if !(c >= '0' && c <= '9') {
            proof {
                assert(!is_digit(body[i - start]));
            }
            return None;
        }
        let d = (c as u32 - 48) as i64;
        let ghost valpre = digits_val(s@.subrange(start as int, i as int));
        if acc <= 2147483648 {
            acc = acc * 10 + d;
            if acc > 2147483648 {
                acc = 2147483649;
            }
        }
        i = i + 1;
        proof {
            let sub1 = s@.subrange(start as int, i as int);
            assert(sub1.drop_last() =~= s@.subrange(start as int, i - 1));
            assert(sub1.last() == s@[i - 1]);
            assert(digits_val(sub1) == valpre * 10 + digit_val(s@[i - 1]));
            if valpre > 2147483648 {
                assert(digits_val(sub1) > 2147483648);
            }
        }
    }
    proof {
        assert(s@.subrange(start as int, n as int) =~= body);
        assert(all_digits(body));
    }
    if neg {
        if acc > 2147483648 {
            None
        } else {
            Some((-acc) as i32)
        }
    } else {
        if acc > 2147483647 {
            None
        } else {
            Some(acc as i32)
        }
    }
}

impl EyeType {
    /// The eye facing an `EyeType` name stands for, if the text is one.
    pub fn from_string(s: &str) -> (r: Option<EyeType>)
        ensures
            r == eye_from_name(s@),
    {
        let v = str_chars(s);
        eye_from_chars(&v)
    }
}

/// The eye facing a character list names, if any.
fn eye_from_chars(v: &Vec<char>) -> (r: Option<EyeType>)
    ensures
        r == eye_from_name(v@),
{
    if v.len() == 2 && v[0] == 'U' && v[1] == 'p' {
        proof {
            assert(v@ =~= eye_name(EyeType::Up));
        }
        Some(EyeType::Up)
    } else if v.len() == 4 && v[0] == 'D' && v[1] == 'o' && v[2] == 'w' && v[3] == 'n' {
        proof {
            assert(v@ =~= eye_name(EyeType::Down));
        }
        Some(EyeType::Down)
    } else if v.len() == 4 && v[0] == 'L' && v[1] == 'e' && v[2] == 'f' && v[3] == 't' {
        proof {
            assert(v@ =~= eye_name(EyeType::Left));
        }
        Some(EyeType::Left)
    } else if v.len() == 5 && v[0] == 'R' && v[1] == 'i' && v[2] == 'g' && v[3] == 'h' && v[4]
        == 't' {
        proof {
            assert(v@ =~= eye_name(EyeType::Right));
        }
        Some(EyeType::Right)
    } else {
        None
    }
}

/// The cell type a character list names, if any.
fn cell_from_chars(v: &Vec<char>) -> (r: Option<Cell>)
    ensures
        r == cell_from_name(v@),
{
    if v.len() == 5 && v[0] == 'M' && v[1] == 'o' && v[2] == 'u' && v[3] == 't' && v[4] == 'h' {
        proof {
            assert(v@ =~= cell_name(Cell::Mouth));
        }
        Some(Cell::Mouth)
    } else if v.len() == 8 && v[0] == 'P' && v[1] == 'r' && v[2] == 'o' && v[3] == 'd' && v[4]
        == 'u' && v[5] == 'c' && v[6] == 'e' && v[7] == 'r' {
        proof {
            assert(v@ =~= cell_name(Cell::Producer));
        }
        Some(Cell::Producer)
    } else if v.len() == 5 && v[0] == 'M' && v[1] == 'o' && v[2] == 'v' && v[3] == 'e' && v[4]
        == 'r' {
        proof {
            assert(v@ =~= cell_name(Cell::Mover));
        }
        Some(Cell::Mover)
    } else if v.len() == 6 && v[0] == 'K' && v[1] == 'i' && v[2] == 'l' && v[3] == 'l' && v[4]
        == 'e' && v[5] == 'r' {
        proof {
            assert(v@ =~= cell_name(Cell::Killer));
        }
        Some(Cell::Killer)
    } else if v.len() == 5 && v[0] == 'A' && v[1] == 'r' && v[2] == 'm' && v[3] == 'o' && v[4]
        == 'r' {
        proof {
            assert(v@ =~= cell_name(Cell::Armor));
        }
        Some(Cell::Armor)
    } else if v.len() == 5 && v[0] == 'B' && v[1] == 'r' && v[2] == 'a' && v[3] == 'i' && v[4]
        == 'n' {
        proof {
            assert(v@ =~= cell_name(Cell::Brain));
        }
        Some(Cell::Brain)
    } else if v.len() >= 5 && v[0] == 'E' && v[1] == 'y' && v[2] == 'e' && v[3] == '('
        && v[v.len() - 1] == ')' {
        proof {
            assert(v@.take(4) =~= seq!['E', 'y', 'e', '(']);
            assert(v@ != cell_name(Cell::Mouth));
            assert(v@ != cell_name(Cell::Producer));
            assert(v@ != cell_name(Cell::Mover));
            assert(v@ != cell_name(Cell::Killer));
            assert(v@ != cell_name(Cell::Armor));
            assert(v@ != cell_name(Cell::Brain));
        }
        let mut inner: Vec<char> = Vec::new();
        let mut i: usize = 4;
        while i < v.len() - 1
            invariant
                v@.len() >= 5,
                4 <= i <= v@.len() - 1,
                inner@ == v@.subrange(4, i as int),
            decreases v@.len() - 1 - i,
        {
            inner.push(v[i]);
            proof {
                assert(inner@ =~= v@.subrange(4, i + 1));
            }
            i = i + 1;
        }
        match eye_from_chars(&inner) {
            Option::Some(e) => Some(Cell::Eye(e)),
            Option::None => None,
        }
    } else {
        None
    }
}

impl Cell {
    /// The cell type a `Cell` name stands for, if the text is one; the
    /// eye variant reads as `Eye(Facing)`.
    pub fn from_string(s: &str) -> (r: Option<Cell>)
        ensures
            r == cell_from_name(s@),
    {
        let v = str_chars(s);
        cell_from_chars(&v)
    }
}

/// Appends one decimal digit.
fn append_digit(s: &mut String, d: u64)
    requires
        d < 10,
    ensures
        final(s)@ == old(s)@ + seq![digit_char(d as int)],
{
    proof {
        reveal_strlit("0");
        reveal_strlit("1");
        reveal_strlit("2");
        reveal_strlit("3");
        reveal_strlit("4");
        reveal_strlit("5");
        reveal_strlit("6");
        reveal_strlit("7");
        reveal_strlit("8");
        reveal_strlit("9");
    }
    if d == 0 {
        s.append("0");
    } else if d == 1 {
        s.append("1");
    } else if d == 2 {
        s.append("2");
    } else if d == 3 {
        s.append("3");
    } else if d == 4 {
        s.append("4");
    } else if d == 5 {
        s.append("5");
    } else if d == 6 {
        s.append("6");
    } else if d == 7 {
        s.append("7");
    } else if d == 8 {
        s.append("8");
    } else {
        s.append("9");
    }
    proof {
        assert(s@ =~= old(s)@ + seq![digit_char(d as int)]);
    }
}

/// Appends the decimal rendering of a non-negative value.
fn append_dec_u(s: &mut String, n: u64)
    ensures
        final(s)@ == old(s)@ + dec_u(n as int),
    decreases n,
{
    if n < 10 {
        append_digit(s, n);
    } else {
        append_dec_u(s, n / 10);
        append_digit(s, n % 10);
        proof {
            assert(s@ =~= old(s)@ + dec_u(n as int));
        }
    }
}

/// Appends the decimal rendering of a signed value.
fn append_dec_i(s: &mut String, v: i64)
    requires
        -0x80000000 <= v <= 0x7fffffff,
    ensures
        final(s)@ == old(s)@ + dec_i(v as int),
{
    if v < 0 {
        proof {
            reveal_strlit("-");
        }
        s.append("-");
        append_dec_u(s, (-v) as u64);
        proof {
            assert(("-")@ =~= seq!['-']);
            assert(s@ =~= old(s)@ + dec_i(v as int));
        }
    } else {
        append_dec_u(s, v as u64);
    }
}

/// Appends a comma.
fn append_comma(s: &mut String)
    ensures
        final(s)@ == old(s)@ + seq![','],
{
    proof {
        reveal_strlit(",");
    }
    s.append(",");
    proof {
        assert(s@ =~= old(s)@ + seq![',']);
    }
}

/// Appends the text name of a cell type.
fn append_cell_name(s: &mut String, c: Cell)
    ensures
        final(s)@ == old(s)@ + cell_name(c),
{
    match c {
        Cell::Empty => {
            proof {
                reveal_strlit("Empty");
            }
            s.append("Empty");
        },
        Cell::Body => {
            proof {
                reveal_strlit("Body");
            }
            s.append("Body");
        },
        Cell::Mouth => {
            proof {
                reveal_strlit("Mouth");
            }
            s.append("Mouth");
        },
        Cell::Producer => {
            proof {
                reveal_strlit("Producer");
            }
            s.append("Producer");
        },
        Cell::Mover => {
            proof {
                reveal_strlit("Mover");
            }
            s.append("Mover");
        },
        Cell::Killer => {
            proof {
                reveal_strlit("Killer");
            }
            s.append("Killer");
        },
        Cell::Armor => {
            proof {
                reveal_strlit("Armor");
            }
            s.append("Armor");
        },
        Cell::Eye(e) => {
            proof {
                reveal_strlit("Eye(");
                reveal_strlit(")");
                reveal_strlit("Up");
                reveal_strlit("Down");
                reveal_strlit("Left");
                reveal_strlit("Right");
            }
            s.append("Eye(");
            match e {
                EyeType::Up => s.append("Up"),
                EyeType::Down => s.append("Down"),
                EyeType::Left => s.append("Left"),
                EyeType::Right => s.append("Right"),
            }
            s.append(")");
        },
        Cell::Brain => {
            proof {
                reveal_strlit("Brain");
            }
            s.append("Brain");
        },
    }
    proof {
        assert(s@ =~= old(s)@ + cell_name(c));
    }
}

/// `enc_anatomy` grows by one triple per appended cell.
proof fn lemma_enc_push(s: Seq<AnatomyCell>, x: AnatomyCell)
    ensures
        enc_anatomy(s.push(x)) == enc_anatomy(s) + enc_triple(x),
    decreases s.len(),
{
    if s.len() == 0 {
        assert(s.push(x)[0] == x);
        assert(s.push(x).skip(1) =~= Seq::<AnatomyCell>::empty());
        assert(enc_anatomy(Seq::<AnatomyCell>::empty()) == Seq::<char>::empty());
        assert(enc_anatomy(s.push(x)) == enc_triple(x) + enc_anatomy(s.push(x).skip(1)));
        assert(enc_anatomy(s.push(x)) =~= enc_anatomy(s) + enc_triple(x));
    } else {
        assert(s.push(x)[0] == s[0]);
        assert(s.push(x).skip(1) =~= s.skip(1).push(x));
        lemma_enc_push(s.skip(1), x);
        assert(enc_anatomy(s.push(x)) == enc_triple(s[0]) + (enc_anatomy(s.skip(1)) + enc_triple(
            x,
        )));
        assert(enc_triple(s[0]) + (enc_anatomy(s.skip(1)) + enc_triple(x)) =~= (enc_triple(s[0])
            + enc_anatomy(s.skip(1))) + enc_triple(x));
    }
}

impl crate::organism::Organism {
    /// Writes the anatomy as the flat comma-separated sequence of
    /// `dx,dy,CellName,` triples (an `Eye` as `Eye(Facing)`), the only
    /// persisted representation of a species.
    pub fn encode_anatomy(&self) -> (r: String)
        ensures
            r@ == enc_anatomy(self.cells@),
    {
        let mut s = String::new();
        let mut i: usize = 0;
        while i < self.cells.len()
            invariant
                i <= self.cells@.len(),
                s@ == enc_anatomy(self.cells@.take(i as int)),
            decreases self.cells@.len() - i,
        {
            let ghost spre = s@;
            let (dx, dy, cell) = self.cells[i];
            append_dec_i(&mut s, dx as i64);
            append_comma(&mut s);
            append_dec_i(&mut s, dy as i64);
            append_comma(&mut s);
            append_cell_name(&mut s, cell);
            append_comma(&mut s);
            proof {
                assert(s@ =~= spre + enc_triple(self.cells@[i as int]));
                assert(self.cells@.take(i + 1) =~= self.cells@.take(i as int).push(
                    self.cells@[i as int],
                ));
                lemma_enc_push(self.cells@.take(i as int), self.cells@[i as int]);
            }
            i = i + 1;
        }
        proof {
            assert(self.cells@.take(self.cells@.len() as int) =~= self.cells@);
        }
        s
    }

    /// Reads an anatomy string back into (dx, dy, cell) triples, three
    /// comma-separated tokens at a time; malformed triples are dropped
    /// rather than failing the whole decode.
    pub fn decode_anatomy(encoded: &str) -> (r: Vec<AnatomyCell>)
        ensures
            r@ == decode_spec(encoded@),
    {
        let chars = str_chars(encoded);
        let parts = split_chars(&chars);
        let ghost pv = split_commas(encoded@);
        let mut out: Vec<AnatomyCell> = Vec::new();
        let mut i: usize = 0;
        proof {
            assert(pv.skip(0) =~= pv);
        }
        while i < parts.len() && parts.len() - i > 2
            invariant
                views_of(parts@) == pv,
                parts@.len() == pv.len(),
                i <= pv.len(),
                out@ + decode_parts(pv.skip(i as int)) == decode_parts(pv),
            decreases parts@.len() - i,
        {
            proof {
                assert(parts@[i as int]@ == pv[i as int]);
                assert(parts@[i + 1]@ == pv[i + 1]);
                assert(parts@[i + 2]@ == pv[i + 2]);
                assert(pv.skip(i as int).len() >= 3);
                assert(pv.skip(i as int)[0] == pv[i as int]);
                assert(pv.skip(i as int)[1] == pv[i + 1]);
                assert(pv.skip(i as int)[2] == pv[i + 2]);
                assert(pv.skip(i as int).skip(3) =~= pv.skip(i + 3));
            }
            let a = parse_i32_chars(&parts[i]);
            let b = parse_i32_chars(&parts[i + 1]);
            let c = cell_from_chars(&parts[i + 2]);
            let ghost opre = out@;
            match (a, b, c) {
                (Option::Some(dx), Option::Some(dy), Option::Some(cc)) => {
                    out.push((dx, dy, cc));
                },
                _ => {},
            }
            proof {
                assert(out@ + decode_parts(pv.skip(i + 3)) =~= opre + decode_parts(
                    pv.skip(i as int),
                ));
            }
            i = i + 3;
        }
        proof {
            assert(pv.skip(i as int).len() < 3);
            assert(decode_parts(pv.skip(i as int)) =~= Seq::<AnatomyCell>::empty());
            assert(out@ =~= decode_parts(pv));
        }
        out
    }
}

/// The rendering of a non-negative value is all digits.
proof fn lemma_dec_u_digits(n: int)
    requires
        n >= 0,
    ensures
        all_digits(dec_u(n)),
        digits_val(dec_u(n)) == n,
    decreases n,
{
    if n < 10 {
        assert(is_digit(digit_char(n)));
        assert(digit_val(digit_char(n)) == n);
        assert(dec_u(n).drop_last() =~= Seq::<char>::empty());
        assert(digits_val(Seq::<char>::empty()) == 0);
        assert(dec_u(n).last() == digit_char(n));
        assert(digits_val(dec_u(n)) == digits_val(dec_u(n).drop_last()) * 10 + digit_val(
            dec_u(n).last(),
        ));
    } else {
        lemma_dec_u_digits(n / 10);
        assert(dec_u(n).drop_last() =~= dec_u(n / 10));
        assert(dec_u(n).last() == digit_char(n % 10));
        assert(is_digit(digit_char(n % 10)));
        assert(digit_val(digit_char(n % 10)) == n % 10);
        assert forall|i: int| 0 <= i < dec_u(n).len() implies is_digit(#[trigger] dec_u(n)[i]) by {
            if i < dec_u(n / 10).len() {
                assert(dec_u(n)[i] == dec_u(n / 10)[i]);
            } else {
                assert(dec_u(n)[i] == digit_char(n % 10));
            }
        }
    }
}

/// Reading back a printed 32-bit value gives the value.
proof fn lemma_parse_print_i32(v: int)
    requires
        -0x80000000 <= v <= 0x7fffffff,
    ensures
        parse_i32_spec(dec_i(v)) == Option::Some(v as i32),
{
    if v < 0 {
        lemma_dec_u_digits(-v);
        let s = dec_i(v);
        assert(s[0] == '-');
        assert(s.skip(1) =~= dec_u(-v));
        assert(all_digits(s.skip(1)));
        assert(digits_val(s.skip(1)) == -v);
    } else {
        lemma_dec_u_digits(v);
        let s = dec_i(v);
        assert(s =~= dec_u(v));
        assert(is_digit(s[0]));
        assert(s[0] != '-' && s[0] != '+');
    }
}

/// A printed integer contains no comma.
proof fn lemma_dec_i_no_comma(v: int)
    ensures
        forall|i: int| 0 <= i < dec_i(v).len() ==> #[trigger] dec_i(v)[i] != ',',
{
    lemma_dec_u_no_comma(if v < 0 {
        -v
    } else {
        v
    });
    if v < 0 {
        assert forall|i: int| 0 <= i < dec_i(v).len() implies #[trigger] dec_i(v)[i] != ',' by {
            if i == 0 {
                assert(dec_i(v)[0] == '-');
            } else {
                assert(dec_i(v)[i] == dec_u(-v)[i - 1]);
            }
        }
    }
}

/// The digits of a rendering contain no comma.
proof fn lemma_dec_u_no_comma(n: int)
    ensures
        forall|i: int| 0 <= i < dec_u(n).len() ==> #[trigger] dec_u(n)[i] != ',',
    decreases n,
{
    if n < 10 {
    } else {
        lemma_dec_u_no_comma(n / 10);
        assert forall|i: int| 0 <= i < dec_u(n).len() implies #[trigger] dec_u(n)[i] != ',' by {
            if i < dec_u(n / 10).len() {
                assert(dec_u(n)[i] == dec_u(n / 10)[i]);
            } else {
                assert(dec_u(n)[i] == digit_char(n % 10));
            }
        }
    }
}

/// A cell name contains no comma.
proof fn lemma_cell_name_no_comma(c: Cell)
    ensures
        forall|i: int| 0 <= i < cell_name(c).len() ==> #[trigger] cell_name(c)[i] != ',',
{
}

/// A recognized cell's written name reads back as that cell.
proof fn lemma_name_roundtrip(c: Cell)
    requires
        crate::cell::recognized(c),
    ensures
        cell_from_name(cell_name(c)) == Option::Some(c),
{
    match c {
        Cell::Mover => {
            assert(cell_name(Cell::Mover)[2] == 'v');
            assert(cell_name(Cell::Mouth)[2] == 'u');
        },
        Cell::Eye(e) => {
            let s = cell_name(c);
            assert(s.len() == 5 + eye_name(e).len());
            assert(s.take(4) =~= seq!['E', 'y', 'e', '(']);
            assert(s.last() == ')');
            assert(s.subrange(4, s.len() - 1) =~= eye_name(e));
            match e {
                EyeType::Down => {
                    assert(eye_name(EyeType::Down)[0] == 'D');
                    assert(eye_name(EyeType::Left)[0] == 'L');
                },
                EyeType::Left => {
                    assert(eye_name(EyeType::Down)[0] == 'D');
                    assert(eye_name(EyeType::Left)[0] == 'L');
                },
                _ => {},
            }
        },
        _ => {},
    }
}

/// The token triples of an anatomy, in encoding order.
pub open spec fn enc_tokens(cells: Seq<AnatomyCell>) -> Seq<Seq<char>>
    decreases cells.len(),
{
    if cells.len() == 0 {
        Seq::empty()
    } else {
        seq![dec_i(cells[0].0 as int), dec_i(cells[0].1 as int), cell_name(cells[0].2)]
            + enc_tokens(cells.skip(1))
    }
}

/// Splitting a comma-free token followed by a comma peels off exactly
/// that token.
proof fn lemma_split_token(t: Seq<char>, rest: Seq<char>, cur: Seq<char>)
    requires
        forall|i: int| 0 <= i < t.len() ==> #[trigger] t[i] != ',',
    ensures
        split_rec(t + seq![','] + rest, cur) == seq![cur + t] + split_rec(rest, Seq::empty()),
    decreases t.len(),
{
    let s = t + seq![','] + rest;
    if t.len() == 0 {
        assert(s[0] == ',');
        assert(s.skip(1) =~= rest);
        assert(cur + t =~= cur);
        assert(split_rec(s, cur) =~= seq![cur + t] + split_rec(rest, Seq::empty()));
    } else {
        assert(s[0] == t[0]);
        assert(t[0] != ',');
        assert(s.skip(1) =~= t.skip(1) + seq![','] + rest);
        lemma_split_token(t.skip(1), rest, cur.push(t[0]));
        assert(cur.push(t[0]) + t.skip(1) =~= cur + t);
        assert(split_rec(s, cur) == split_rec(t.skip(1) + seq![','] + rest, cur.push(t[0])));
    }
}

/// Splitting an encoded anatomy followed by any tail yields the token
/// triples and then the split of the tail.
proof fn lemma_split_enc(cells: Seq<AnatomyCell>, tail: Seq<char>)
    ensures
        split_rec(enc_anatomy(cells) + tail, Seq::empty()) == enc_tokens(cells) + split_rec(
            tail,
            Seq::empty(),
        ),
    decreases cells.len(),
{
    if cells.len() == 0 {
        assert(enc_anatomy(cells) + tail =~= tail);
        assert(enc_tokens(cells) + split_rec(tail, Seq::empty()) =~= split_rec(
            tail,
            Seq::empty(),
        ));
    } else {
        let c = cells[0];
        let d1 = dec_i(c.0 as int);
        let d2 = dec_i(c.1 as int);
        let nm = cell_name(c.2);
        let rest1 = d2 + seq![','] + nm + seq![','] + enc_anatomy(cells.skip(1)) + tail;
        let rest2 = nm + seq![','] + enc_anatomy(cells.skip(1)) + tail;
        let rest3 = enc_anatomy(cells.skip(1)) + tail;
        lemma_dec_i_no_comma(c.0 as int);
        lemma_dec_i_no_comma(c.1 as int);
        lemma_cell_name_no_comma(c.2);
        assert(enc_anatomy(cells) + tail =~= d1 + seq![','] + rest1);
        lemma_split_token(d1, rest1, Seq::empty());
        assert(rest1 =~= d2 + seq![','] + rest2);
        lemma_split_token(d2, rest2, Seq::empty());
        assert(rest2 =~= nm + seq![','] + rest3);
        lemma_split_token(nm, rest3, Seq::empty());
        lemma_split_enc(cells.skip(1), tail);
        assert(Seq::<char>::empty() + d1 =~= d1);
        assert(Seq::<char>::empty() + d2 =~= d2);
        assert(Seq::<char>::empty() + nm =~= nm);
        assert(split_rec(enc_anatomy(cells) + tail, Seq::empty()) =~= enc_tokens(cells)
            + split_rec(tail, Seq::empty()));
    }
}

/// Decoding the token triples of a recognizable anatomy, with the
/// trailing empty token of the final comma, restores the anatomy.
proof fn lemma_decode_tokens(cells: Seq<AnatomyCell>)
    requires
        forall|i: int| 0 <= i < cells.len() ==> crate::cell::recognized((#[trigger] cells[i]).2),
    ensures
        decode_parts(enc_tokens(cells).push(Seq::empty())) == cells,
    decreases cells.len(),
{
    let parts = enc_tokens(cells).push(Seq::<char>::empty());
    if cells.len() == 0 {
        assert(parts.len() == 1);
        assert(decode_parts(parts) =~= cells);
    } else {
        let c = cells[0];
        assert(parts[0] == dec_i(c.0 as int));
        assert(parts[1] == dec_i(c.1 as int));
        assert(parts[2] == cell_name(c.2));
        lemma_parse_print_i32(c.0 as int);
        lemma_parse_print_i32(c.1 as int);
        lemma_name_roundtrip(c.2);
        assert(parse_i32_spec(parts[0]) == Option::Some(c.0));
        assert(parse_i32_spec(parts[1]) == Option::Some(c.1));
        assert(cell_from_name(parts[2]) == Option::Some(c.2));
        assert(parts.skip(3) =~= enc_tokens(cells.skip(1)).push(Seq::<char>::empty()));
        lemma_decode_tokens(cells.skip(1));
        assert(decode_parts(parts) =~= seq![(c.0, c.1, c.2)] + cells.skip(1));
        assert((c.0, c.1, c.2) == c);
        assert(seq![c] + cells.skip(1) =~= cells);
    }
}

/// Law: encoding an anatomy and decoding the result reproduces exactly
/// the original sequence of (dx, dy, cell) triples — and so the same
/// multiset — whenever every cell is of a recognized, encodable type.
pub proof fn lemma_encode_decode_roundtrip(cells: Seq<AnatomyCell>)
    requires
        forall|i: int| 0 <= i < cells.len() ==> crate::cell::recognized((#[trigger] cells[i]).2),
    ensures
        decode_spec(enc_anatomy(cells)) == cells,
{
    lemma_split_enc(cells, Seq::empty());
    assert(enc_anatomy(cells) + Seq::<char>::empty() =~= enc_anatomy(cells));
    assert(split_rec(Seq::<char>::empty(), Seq::<char>::empty()) =~= seq![Seq::<char>::empty()]);
    assert(enc_tokens(cells) + seq![Seq::<char>::empty()] =~= enc_tokens(cells).push(
        Seq::<char>::empty(),
    ));
    lemma_decode_tokens(cells);
}

} // verus!
