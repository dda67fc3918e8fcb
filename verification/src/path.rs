//! Wire paths: move instructions, chain construction, crossing search.

use vstd::prelude::*;
use vstd::string::StrSliceExecFns;

use crate::line::Line;
use crate::line::line_between;
use crate::myerror::MyError;
use crate::point::Point;
use crate::point::origin;

verus! {

broadcast use vstd::seq_lib::lemma_seq_contains_after_push;

pub type Path = Vec<Line>;

pub type PathRef = [Line];

#[derive(Debug, Clone, Copy, PartialEq, Eq, Structural)]
pub enum Direction {
    Left,
    Right,
    Up,
    Down,
}

/// One move of a wire: a direction and a (positive) step count.
#[derive(Debug, Clone, Copy, PartialEq, Eq, Structural)]
pub struct PathElement {
    pub direction: Direction,
    pub length: u32,
}

impl PathElement {
    /// Reads one move token: a direction letter followed by a positive
    /// decimal length, ASCII only. Reports exactly which way a malformed
    /// token is broken.
    pub fn parse(s: &str) -> (r: Result<PathElement, MyError>)
        ensures
            r is Ok <==> valid_token(s@),
            r matches Ok(e) ==> e == token_element(s@),
            r matches Err(e) ==> e.msg@ == token_error_msg(s@),
    {
        if !s.is_ascii() {
            return Err(MyError::new("path data must be ascii encoded"));
        }

        let n = s.unicode_len();
        if n == 0 {
            return Err(MyError::new("empty line data found"));
        }

        let c0 = s.get_char(0);
        let direction = if c0 == 'U' {
            Direction::Up
        } else if c0 == 'D' {
            Direction::Down
        } else if c0 == 'L' {
            Direction::Left
        } else if c0 == 'R' {
            Direction::Right
        } else {
            return Err(MyError::new("invalid direction"));
        };

        let mut val: u64 = 0;
        let mut i: usize = 1;
        while i < n
            invariant
                1 <= i <= n,
                n == s@.len(),
                vstd::utf8::is_ascii_chars(s@),
                is_dir_char(s@[0]),
                all_digits(s@.subrange(1, i as int)),
                val == digits_val(s@.subrange(1, i as int)),
                val <= u32::MAX,
            decreases n - i,
        {
            let c = s.get_char(i);
            let cu = c as u32;
            if cu < 48 || cu > 57 {
                proof {
                    assert(!is_digit_char(s@[i as int]));
                    if valid_token(s@) {
                        assert(is_digit_char(s@.skip(1)[i - 1]));
                        assert(false);
                    }
                }
                return Err(MyError::new("invalid length"));
            }
            let ghost prev = s@.subrange(1, i as int);
            let ghost cur = s@.subrange(1, i as int + 1);
            proof {
                assert(cur.drop_last() =~= prev);
                assert(cur.last() == s@[i as int]);
                assert(digit_val(s@[i as int]) == cu - 48);
            }
            val = val * 10 + ((cu - 48) as u64);
            if val > (u32::MAX as u64) {
                proof {
                    if valid_token(s@) {
                        assert(s@.skip(1).take(i as int) =~= cur);
                        lemma_digits_val_prefix(s@.skip(1), i as int);
                        assert(false);
                    }
                }
                return Err(MyError::new("invalid length"));
            }
            i = i + 1;
        }

        proof {
            assert(s@.subrange(1, n as int) =~= s@.skip(1));
        }
        if val == 0 {
            return Err(MyError::new("invalid length"));
        }
        Ok(PathElement { direction, length: val as u32 })
    }
}

/// The four letters a move token may start with.
pub open spec fn is_dir_char(c: char) -> bool {
    c == 'U' || c == 'D' || c == 'L' || c == 'R'
}

/// The direction a token's leading letter names.
pub open spec fn dir_of_char(c: char) -> Direction {
    if c == 'U' {
        Direction::Up
    } else if c == 'D' {
        Direction::Down
    } else if c == 'L' {
        Direction::Left
    } else {
        Direction::Right
    }
}

pub open spec fn is_digit_char(c: char) -> bool {
    '0' <= c && c <= '9'
}

pub open spec fn digit_val(c: char) -> int {
    c as int - '0' as int
}

pub open spec fn all_digits(s: Seq<char>) -> bool {
    forall|i: int| 0 <= i < s.len() ==> is_digit_char(#[trigger] s[i])
}

/// The number a run of decimal digits denotes.
pub open spec fn digits_val(s: Seq<char>) -> int
    decreases s.len(),
{
    if s.len() == 0 {
        0
    } else {
        digits_val(s.drop_last()) * 10 + digit_val(s.last())
    }
}

/// A well-formed move token: ASCII, a direction letter, then decimal digits
/// denoting a positive length that fits the length type.
pub open spec fn valid_token(s: Seq<char>) -> bool {
    &&& vstd::utf8::is_ascii_chars(s)
    &&& s.len() >= 2
    &&& is_dir_char(s[0])
    &&& all_digits(s.skip(1))
    &&& 1 <= digits_val(s.skip(1)) <= u32::MAX
}

pub open spec fn token_direction(s: Seq<char>) -> Direction {
    dir_of_char(s[0])
}

pub open spec fn token_length(s: Seq<char>) -> int {
    digits_val(s.skip(1))
}

/// The message a malformed token is reported with.
pub open spec fn token_error_msg(s: Seq<char>) -> Seq<char> {
    if !vstd::utf8::is_ascii_chars(s) {
        "path data must be ascii encoded"@
    } else if s.len() == 0 {
        "empty line data found"@
    } else if !is_dir_char(s[0]) {
        "invalid direction"@
    } else {
        "invalid length"@
    }
}

/// The move a well-formed token denotes.
pub open spec fn token_element(s: Seq<char>) -> PathElement {
    PathElement { direction: token_direction(s), length: token_length(s) as u32 }
}

proof fn lemma_digits_val_nonneg(s: Seq<char>)
    requires
        all_digits(s),
    ensures
        digits_val(s) >= 0,
    decreases s.len(),
{
    if s.len() > 0 {
        assert(all_digits(s.drop_last()));
        lemma_digits_val_nonneg(s.drop_last());
        assert(is_digit_char(s.last()));
    }
}

proof fn lemma_digits_val_prefix(s: Seq<char>, k: int)
    requires
        all_digits(s),
        0 <= k <= s.len(),
    ensures
        digits_val(s.take(k)) <= digits_val(s),
    decreases s.len(),
{
    if k == s.len() {
        assert(s.take(k) =~= s);
    } else {
        let d = s.drop_last();
        assert(all_digits(d));
        lemma_digits_val_prefix(d, k);
        assert(d.take(k) =~= s.take(k));
        lemma_digits_val_nonneg(d);
        assert(is_digit_char(s.last()));
    }
}

/// The pieces of `s` between occurrences of the separator, in order. An
/// empty text has one empty piece, as splitting on a separator does.
pub open spec fn split_sep(s: Seq<char>, sep: char) -> Seq<Seq<char>>
    decreases s.len(),
{
    if s.len() == 0 {
        seq![Seq::<char>::empty()]
    } else if s[0] == sep {
        seq![Seq::<char>::empty()] + split_sep(s.drop_first(), sep)
    } else {
        let rest = split_sep(s.drop_first(), sep);
        seq![seq![s[0]] + rest[0]] + rest.drop_first()
    }
}

/// The comma-separated pieces of a path description, in order.
pub open spec fn split_commas(s: Seq<char>) -> Seq<Seq<char>> {
    split_sep(s, ',')
}

/// Every comma-separated piece is a well-formed move token.
pub open spec fn all_tokens_valid(pieces: Seq<Seq<char>>) -> bool {
    forall|i: int| 0 <= i < pieces.len() ==> valid_token(#[trigger] pieces[i])
}

/// The moves a piece list denotes, piece by piece.
pub open spec fn path_elements_spec(pieces: Seq<Seq<char>>) -> Seq<PathElement> {
    pieces.map_values(|t: Seq<char>| token_element(t))
}

/// The message the first malformed piece is reported with.
pub open spec fn path_error_msg(pieces: Seq<Seq<char>>) -> Seq<char>
    decreases pieces.len(),
{
    if pieces.len() == 0 {
        Seq::empty()
    } else if !valid_token(pieces[0]) {
        token_error_msg(pieces[0])
    } else {
        path_error_msg(pieces.drop_first())
    }
}

proof fn lemma_split_len(s: Seq<char>, sep: char)
    ensures
        split_sep(s, sep).len() >= 1,
    decreases s.len(),
{
    if s.len() > 0 {
        lemma_split_len(s.drop_first(), sep);
    }
}

proof fn lemma_split_no_sep(s: Seq<char>, sep: char)
    requires
        forall|k: int| 0 <= k < s.len() ==> #[trigger] s[k] != sep,
    ensures
        split_sep(s, sep) == seq![s],
    decreases s.len(),
{
    if s.len() == 0 {
        assert(split_sep(s, sep) =~~= seq![s]);
    } else {
        lemma_split_no_sep(s.drop_first(), sep);
        lemma_split_len(s.drop_first(), sep);
        assert(seq![s[0]] + s.drop_first() =~= s);
        assert(split_sep(s, sep) =~~= seq![s]);
    }
}

proof fn lemma_split_first_sep(s: Seq<char>, j: int, sep: char)
    requires
        0 <= j < s.len(),
        s[j] == sep,
        forall|k: int| 0 <= k < j ==> #[trigger] s[k] != sep,
    ensures
        split_sep(s, sep) == seq![s.take(j)] + split_sep(s.skip(j + 1), sep),
    decreases j,
{
    if j == 0 {
        assert(s.take(0) =~= Seq::<char>::empty());
        assert(s.skip(1) =~= s.drop_first());
        assert(split_sep(s, sep) =~~= seq![s.take(0)] + split_sep(s.skip(1), sep));
    } else {
        let d = s.drop_first();
        assert(d[j - 1] == sep);
        assert(forall|k: int| 0 <= k < j - 1 ==> #[trigger] d[k] != sep);
        lemma_split_first_sep(d, j - 1, sep);
        lemma_split_len(d.skip(j), sep);
        assert(seq![s[0]] + d.take(j - 1) =~= s.take(j));
        assert(d.skip(j) =~= s.skip(j + 1));
        assert(split_sep(s, sep) =~~= seq![s.take(j)] + split_sep(s.skip(j + 1), sep));
    }
}

/// The position of the first occurrence of the separator, if there is one.
fn first_sep(s: &str, sep: char) -> (r: Option<usize>)
    ensures
        r matches Some(j) ==> 0 <= j < s@.len() && s@[j as int] == sep
            && forall|k: int| 0 <= k < j ==> #[trigger] s@[k] != sep,
        r is None ==> forall|k: int| 0 <= k < s@.len() ==> #[trigger] s@[k] != sep,
{
    let n = s.unicode_len();
    let mut j: usize = 0;
    while j < n
        invariant
            0 <= j <= n,
            n == s@.len(),
            forall|k: int| 0 <= k < j ==> #[trigger] s@[k] != sep,
        decreases n - j,
    {
        if s.get_char(j) == sep {
            return Some(j);
        }
        j = j + 1;
    }
    None
}

/// Parses a whole comma-separated path description into its move list.
/// Fails on the first malformed token, with that token's own message.
pub fn parse_path(path_data: &str) -> (r: Result<Vec<PathElement>, MyError>)
    ensures
        r is Ok <==> all_tokens_valid(split_commas(path_data@)),
        r matches Ok(v) ==> v@ == path_elements_spec(split_commas(path_data@)),
        r matches Err(e) ==> e.msg@ == path_error_msg(split_commas(path_data@)),
    decreases path_data@.len(),
{
    let ghost pieces = split_commas(path_data@);
    match first_sep(path_data, ',') {
        None => {
            proof {
                lemma_split_no_sep(path_data@, ',');
            }
            match PathElement::parse(path_data) {
                Ok(e) => {
                    let mut v: Vec<PathElement> = Vec::new();
                    v.push(e);
                    proof {
                        assert(v@ =~= path_elements_spec(pieces));
                    }
                    Ok(v)
                },
                Err(e) => {
                    proof {
                        assert(pieces[0] == path_data@);
                        assert(!all_tokens_valid(pieces));
                    }
                    Err(e)
                },
            }
        },
        Some(j) => {
            proof {
                lemma_split_first_sep(path_data@, j as int, ',');
                lemma_split_len(path_data@.skip(j as int + 1), ',');
            }
            let n = path_data.unicode_len();
            let head = path_data.substring_char(0, j);
            let tail = path_data.substring_char(j + 1, n);
            proof {
                assert(head@ =~= path_data@.take(j as int));
                assert(tail@ =~= path_data@.skip(j as int + 1));
                assert(pieces == seq![head@] + split_commas(tail@));
                assert(pieces[0] == head@);
                assert(pieces.drop_first() =~~= split_commas(tail@));
            }
            match PathElement::parse(head) {
                Err(e) => {
                    proof {
                        assert(!all_tokens_valid(pieces));
                        assert(path_error_msg(pieces) == token_error_msg(head@));
                    }
                    Err(e)
                },
                Ok(e) => {
                    match parse_path(tail) {
                        Err(e2) => {
                            proof {
                                assert(path_error_msg(pieces)
                                    == path_error_msg(split_commas(tail@)));
                                assert(!all_tokens_valid(split_commas(tail@)));
                                let b = choose|b: int| 0 <= b < split_commas(tail@).len()
                                    && !valid_token(#[trigger] split_commas(tail@)[b]);
                                assert(pieces[b + 1] == split_commas(tail@)[b]);
                                assert(!all_tokens_valid(pieces));
                            }
                            Err(e2)
                        },
                        Ok(mut v_rest) => {
                            v_rest.insert(0, e);
                            proof {
                                assert(all_tokens_valid(split_commas(tail@)));
                                assert forall|b: int| 0 <= b < pieces.len()
                                    implies valid_token(#[trigger] pieces[b]) by {
                                    if b > 0 {
                                        assert(pieces[b] == split_commas(tail@)[b - 1]);
                                        assert(valid_token(split_commas(tail@)[b - 1]));
                                    }
                                }
                                assert(v_rest@ =~= path_elements_spec(pieces));
                            }
                            Ok(v_rest)
                        },
                    }
                },
            }
        },
    }
}

/// One text line as line splitting leaves it: a piece that ended at a line
/// feed loses one carriage return directly before it.
pub open spec fn strip_cr(t: Seq<char>) -> Seq<char> {
    if t.len() > 0 && t.last() == '\r' {
        t.drop_last()
    } else {
        t
    }
}

/// The lines of a text: pieces between line feeds, each stripped of one
/// carriage return before the line feed; a final empty piece (a trailing
/// newline, or an empty text) yields no line of its own.
pub open spec fn lines_of(s: Seq<char>) -> Seq<Seq<char>> {
    let raw = split_sep(s, '\n');
    let before_last = raw.take(raw.len() - 1).map_values(|t: Seq<char>| strip_cr(t));
    if raw.last().len() == 0 {
        before_last
    } else {
        before_last.push(raw.last())
    }
}

proof fn lemma_lines_no_nl(s: Seq<char>)
    requires
        forall|k: int| 0 <= k < s.len() ==> #[trigger] s[k] != '\n',
    ensures
        s.len() == 0 ==> lines_of(s) == Seq::<Seq<char>>::empty(),
        s.len() > 0 ==> lines_of(s) == seq![s],
{
    lemma_split_no_sep(s, '\n');
    if s.len() == 0 {
        assert(lines_of(s) =~~= Seq::<Seq<char>>::empty());
    } else {
        assert(lines_of(s) =~~= seq![s]);
    }
}

proof fn lemma_lines_first_nl(s: Seq<char>, j: int)
    requires
        0 <= j < s.len(),
        s[j] == '\n',
        forall|k: int| 0 <= k < j ==> #[trigger] s[k] != '\n',
    ensures
        lines_of(s) == seq![strip_cr(s.take(j))] + lines_of(s.skip(j + 1)),
{
    lemma_split_first_sep(s, j, '\n');
    let raw = split_sep(s, '\n');
    let rest = split_sep(s.skip(j + 1), '\n');
    lemma_split_len(s.skip(j + 1), '\n');
    assert(raw == seq![s.take(j)] + rest);
    assert(raw.last() == rest.last());
    assert(raw.take(raw.len() - 1) =~~= seq![s.take(j)] + rest.take(rest.len() - 1));
    let before_last = raw.take(raw.len() - 1).map_values(|t: Seq<char>| strip_cr(t));
    let rest_before_last = rest.take(rest.len() - 1).map_values(|t: Seq<char>| strip_cr(t));
    assert(before_last =~~= seq![strip_cr(s.take(j))] + rest_before_last);
    assert(lines_of(s) =~~= seq![strip_cr(s.take(j))] + lines_of(s.skip(j + 1)));
}

/// Splits a text into its lines, handling both plain and carriage-return
/// line endings, with no line for a trailing newline.
fn split_lines(s: &str) -> (r: Vec<String>)
    ensures
        r@.map_values(|t: String| t@) == lines_of(s@),
    decreases s@.len(),
{
    match first_sep(s, '\n') {
        None => {
            proof {
                lemma_lines_no_nl(s@);
            }
            let n = s.unicode_len();
            let mut v: Vec<String> = Vec::new();
            if n > 0 {
                v.push(s.to_owned());
            }
            proof {
                assert(v@.map_values(|t: String| t@) =~~= lines_of(s@));
            }
            v
        },
        Some(j) => {
            proof {
                lemma_lines_first_nl(s@, j as int);
            }
            let n = s.unicode_len();
            let head_full = s.substring_char(0, j);
            let head = if j > 0 && head_full.get_char(j - 1) == '\r' {
                head_full.substring_char(0, j - 1)
            } else {
                head_full
            };
            let tail = s.substring_char(j + 1, n);
            proof {
                assert(head_full@ =~= s@.take(j as int));
                assert(head@ =~= strip_cr(s@.take(j as int)));
                assert(tail@ =~= s@.skip(j as int + 1));
            }
            let mut rest = split_lines(tail);
            rest.insert(0, head.to_owned());
            proof {
                assert(rest@.map_values(|t: String| t@) =~~= lines_of(s@));
            }
            rest
        },
    }
}

/// A whole input is well-formed when it has exactly two lines and every
/// token on each is a valid move.
pub open spec fn input_ok(content: Seq<char>) -> bool {
    &&& lines_of(content).len() == 2
    &&& all_tokens_valid(split_commas(lines_of(content)[0]))
    &&& all_tokens_valid(split_commas(lines_of(content)[1]))
}

/// The message a malformed input is reported with: the line count first,
/// then the first malformed token of the first broken line.
pub open spec fn input_error_msg(content: Seq<char>) -> Seq<char> {
    if lines_of(content).len() != 2 {
        "2 paths required"@
    } else if !all_tokens_valid(split_commas(lines_of(content)[0])) {
        path_error_msg(split_commas(lines_of(content)[0]))
    } else {
        path_error_msg(split_commas(lines_of(content)[1]))
    }
}

/// Parses a whole input text: exactly two lines, each a comma-separated
/// path description, giving the two move lists.
pub fn parse_input(content: &str) -> (r: Result<(Vec<PathElement>, Vec<PathElement>), MyError>)
    ensures
        r is Ok <==> input_ok(content@),
        r matches Ok(v) ==> v.0@ == path_elements_spec(split_commas(lines_of(content@)[0]))
            && v.1@ == path_elements_spec(split_commas(lines_of(content@)[1])),
        r matches Err(e) ==> e.msg@ == input_error_msg(content@),
{
    let lines = split_lines(content);
    if lines.len() != 2 {
        return Err(MyError::new("2 paths required"));
    }
    proof {
        assert(lines@[0]@ == lines_of(content@)[0]);
        assert(lines@[1]@ == lines_of(content@)[1]);
    }
    let path1 = match parse_path(lines[0].as_str()) {
        Ok(v) => v,
        Err(e) => {
            return Err(e);
        },
    };
    let path2 = match parse_path(lines[1].as_str()) {
        Ok(v) => v,
        Err(e) => {
            return Err(e);
        },
    };
    Ok((path1, path2))
}

/// How far one move shifts the x coordinate.
pub open spec fn move_dx(e: PathElement) -> int {
    match e.direction {
        Direction::Right => e.length as int,
        Direction::Left => -(e.length as int),
        _ => 0,
    }
}

/// How far one move shifts the y coordinate.
pub open spec fn move_dy(e: PathElement) -> int {
    match e.direction {
        Direction::Up => e.length as int,
        Direction::Down => -(e.length as int),
        _ => 0,
    }
}

/// The x coordinate of the running position after the first `n` moves,
/// starting from the origin.
pub open spec fn pos_x(moves: Seq<PathElement>, n: int) -> int
    decreases n,
{
    if n <= 0 {
        0
    } else {
        pos_x(moves, n - 1) + move_dx(moves[n - 1])
    }
}

/// The y coordinate of the running position after the first `n` moves.
pub open spec fn pos_y(moves: Seq<PathElement>, n: int) -> int
    decreases n,
{
    if n <= 0 {
        0
    } else {
        pos_y(moves, n - 1) + move_dy(moves[n - 1])
    }
}

/// The running position after the first `n` moves, as a grid point.
pub open spec fn pos_point(moves: Seq<PathElement>, n: int) -> Point {
    Point { x: pos_x(moves, n) as i32, y: pos_y(moves, n) as i32 }
}

/// Every move advances by at least one grid step.
pub open spec fn positive_lengths(moves: Seq<PathElement>) -> bool {
    forall|i: int| 0 <= i < moves.len() ==> (#[trigger] moves[i]).length >= 1
}

/// Every running position along the walk fits in the coordinate type.
pub open spec fn positions_fit(moves: Seq<PathElement>) -> bool {
    forall|n: int| 0 <= n <= moves.len() ==> i32::MIN <= #[trigger] pos_x(moves, n) <= i32::MAX
        && i32::MIN <= pos_y(moves, n) <= i32::MAX
}

/// The chain a sequence of moves describes: segment `i` spans the running
/// positions before and after move `i`.
pub open spec fn chain_spec(moves: Seq<PathElement>) -> Seq<Line> {
    Seq::new(moves.len(), |i: int| line_between(pos_point(moves, i), pos_point(moves, i + 1)))
}

/// Whether `p` lies on some segment of the chain.
pub open spec fn on_path(chain: Seq<Line>, p: Point) -> bool {
    exists|k: int| 0 <= k < chain.len() && #[trigger] chain[k].on_line(p)
}

/// Whether `p` lies on at least one segment of each chain.
pub open spec fn crossing(chain1: Seq<Line>, chain2: Seq<Line>, p: Point) -> bool {
    on_path(chain1, p) && on_path(chain2, p)
}

/// Turns a move list into the chain of segments it describes, walking from
/// the origin. Each move must advance by at least one step, and every
/// position along the walk must fit in the coordinate type.
pub fn transform(path_elements: Vec<PathElement>) -> (r: Path)
    requires
        positive_lengths(path_elements@),
        positions_fit(path_elements@),
    ensures
        r@ == chain_spec(path_elements@),
        r@.len() == path_elements@.len(),
        forall|i: int| 0 <= i < r@.len() ==> (#[trigger] r@[i]).wf(),
{
    let moves_len = path_elements.len();
    let mut path: Path = Vec::new();
    let mut current_pos = Point { x: 0, y: 0 };
    let mut i: usize = 0;
    while i < moves_len
        invariant
            0 <= i <= moves_len,
            moves_len == path_elements@.len(),
            positive_lengths(path_elements@),
            positions_fit(path_elements@),
            current_pos == pos_point(path_elements@, i as int),
            path@.len() == i,
            forall|j: int| 0 <= j < i ==> #[trigger] path@[j] == chain_spec(path_elements@)[j],
            forall|j: int| 0 <= j < i ==> (#[trigger] path@[j]).wf(),
        decreases moves_len - i,
    {
        let ghost moves = path_elements@;
        let ghost n = i as int;
        proof {
            assert(pos_x(moves, n + 1) == pos_x(moves, n) + move_dx(moves[n]));
            assert(pos_y(moves, n + 1) == pos_y(moves, n) + move_dy(moves[n]));
            assert(i32::MIN <= pos_x(moves, n + 1) <= i32::MAX);
            assert(i32::MIN <= pos_y(moves, n + 1) <= i32::MAX);
        }
        let path_element = path_elements[i];
        let end_pos = match path_element.direction {
            Direction::Right => Point {
                x: ((current_pos.x as i64) + (path_element.length as i64)) as i32,
                y: current_pos.y,
            },
            Direction::Left => Point {
                x: ((current_pos.x as i64) - (path_element.length as i64)) as i32,
                y: current_pos.y,
            },
            Direction::Up => Point {
                x: current_pos.x,
                y: ((current_pos.y as i64) + (path_element.length as i64)) as i32,
            },
            Direction::Down => Point {
                x: current_pos.x,
                y: ((current_pos.y as i64) - (path_element.length as i64)) as i32,
            },
        };
        proof {
            assert(end_pos == pos_point(moves, n + 1));
            assert(current_pos != end_pos);
            assert(current_pos.x == end_pos.x || current_pos.y == end_pos.y);
        }
        match Line::new(current_pos, end_pos) {
            Ok(l) => {
                path.push(l);
            },
            Err(_) => {
                proof {
                    assert(false);
                }
            },
        }
        current_pos = end_pos;
        i = i + 1;
    }
    proof {
        assert(path@ =~= chain_spec(path_elements@));
    }
    path
}

/// Law: a chain built from at least one move passes through the origin,
/// where every walk starts.
pub proof fn lemma_origin_on_chain(moves: Seq<PathElement>)
    requires
        positive_lengths(moves),
        positions_fit(moves),
        moves.len() >= 1,
    ensures
        on_path(chain_spec(moves), origin()),
{
    let a = pos_point(moves, 0);
    let b = pos_point(moves, 1);
    assert(pos_x(moves, 0) == 0 && pos_y(moves, 0) == 0);
    assert(pos_x(moves, 1) == 0 + move_dx(moves[0]));
    assert(pos_y(moves, 1) == 0 + move_dy(moves[0]));
    assert(a != b && (a.x == b.x || a.y == b.y));
    crate::line::lemma_new_contains_endpoints(a, b);
    assert(chain_spec(moves)[0] == line_between(a, b));
    assert(chain_spec(moves)[0].on_line(origin()));
}

/// Law: the chain of `N` positive moves has exactly `N` segments, and the
/// canonical start of segment `i` is the running position before move `i`
/// for Right and Up moves, and the position after it for Left and Down
/// moves (the canonical start is always the lower endpoint).
pub proof fn lemma_chain_segment_starts(moves: Seq<PathElement>, i: int)
    requires
        positive_lengths(moves),
        positions_fit(moves),
        0 <= i < moves.len(),
    ensures
        chain_spec(moves).len() == moves.len(),
        moves[i].direction == Direction::Right || moves[i].direction == Direction::Up
            ==> chain_spec(moves)[i].start == pos_point(moves, i),
        moves[i].direction == Direction::Left || moves[i].direction == Direction::Down
            ==> chain_spec(moves)[i].start == pos_point(moves, i + 1),
{
    assert(pos_x(moves, i + 1) == pos_x(moves, i) + move_dx(moves[i]));
    assert(pos_y(moves, i + 1) == pos_y(moves, i) + move_dy(moves[i]));
    assert(chain_spec(moves)[i] == line_between(pos_point(moves, i), pos_point(moves, i + 1)));
}

/// Whether `p` lies on some of the first `k_end` segments of the chain.
spec fn on_path_prefix(chain: Seq<Line>, k_end: int, p: Point) -> bool {
    exists|k: int| 0 <= k < k_end && #[trigger] chain[k].on_line(p)
}

/// Whether `p` is one of the first `j` enumerated points of the segment.
spec fn in_offsets(l: Line, j: int, p: Point) -> bool {
    exists|t: int| 0 <= t < j && p == l.point_at(t)
}

/// Whether the vector holds `p`.
fn contains_point(v: &Vec<Point>, p: Point) -> (r: bool)
    ensures
        r == v@.contains(p),
{
    let mut k: usize = 0;
    while k < v.len()
        invariant
            0 <= k <= v@.len(),
            forall|j: int| 0 <= j < k ==> #[trigger] v@[j] != p,
        decreases v@.len() - k,
    {
        if v[k] == p {
            return true;
        }
        k = k + 1;
    }
    false
}

/// Every grid point that lies on a segment of each chain, each point once.
/// The raw geometric crossings are reported: in particular the origin is in
/// the result whenever both chains pass through it; filtering it out is the
/// caller's business.
pub fn find_intersections(path1: &PathRef, path2: &PathRef) -> (r: Vec<Point>)
    requires
        forall|k: int| 0 <= k < path1@.len() ==> (#[trigger] path1@[k]).wf(),
    ensures
        forall|p: Point| #[trigger] r@.contains(p) <==> crossing(path1@, path2@, p),
        forall|i: int, j: int| 0 <= i < j < r@.len() ==> r@[i] != r@[j],
{
    let mut crossings: Vec<Point> = Vec::new();
    let mut i: usize = 0;
    while i < path1.len()
        invariant
            0 <= i <= path1@.len(),
            forall|k: int| 0 <= k < path1@.len() ==> (#[trigger] path1@[k]).wf(),
            forall|p: Point| #[trigger] crossings@.contains(p)
                <==> on_path_prefix(path1@, i as int, p) && on_path(path2@, p),
            forall|a: int, b: int| 0 <= a < b < crossings@.len() ==> crossings@[a] != crossings@[b],
        decreases path1@.len() - i,
    {
        let line = path1[i];
        let mut j: u64 = 0;
        while j <= line.len as u64
            invariant
                line == path1@[i as int],
                line.wf(),
                0 <= i < path1@.len(),
                forall|k: int| 0 <= k < path1@.len() ==> (#[trigger] path1@[k]).wf(),
                0 <= j <= line.len + 1,
                forall|p: Point| #[trigger] crossings@.contains(p)
                    <==> (on_path_prefix(path1@, i as int, p) || in_offsets(line, j as int, p))
                        && on_path(path2@, p),
                forall|a: int, b: int| 0 <= a < b < crossings@.len()
                    ==> crossings@[a] != crossings@[b],
            decreases line.len + 1 - j,
        {
            let point = match line.orientation {
                crate::line::Orientation::Horizontal => Point {
                    x: ((line.start.x as i64) + (j as i64)) as i32,
                    y: line.start.y,
                },
                crate::line::Orientation::Vertical => Point {
                    x: line.start.x,
                    y: ((line.start.y as i64) + (j as i64)) as i32,
                },
            };
            proof {
                assert(point == line.point_at(j as int));
                assert(in_offsets(line, j as int + 1, point));
                assert(forall|p: Point| in_offsets(line, j as int, p)
                    ==> in_offsets(line, j as int + 1, p));
                assert forall|p: Point| in_offsets(line, j as int + 1, p)
                    implies in_offsets(line, j as int, p) || p == point by {
                    let t = choose|t: int| 0 <= t < j as int + 1 && p == line.point_at(t);
                    if t < j as int {
                        assert(in_offsets(line, j as int, p));
                    }
                }
            }
            if is_on_path(point, path2) {
                if !contains_point(&crossings, point) {
                    crossings.push(point);
                }
            }
            j = j + 1;
        }
        proof {
            assert forall|p: Point| #[trigger] crossings@.contains(p)
                <==> on_path_prefix(path1@, i as int + 1, p) && on_path(path2@, p) by {
                crate::line::lemma_on_line_iff_offset(line, p);
                assert(in_offsets(line, j as int, p) <==> line.on_line(p)) by {
                    if in_offsets(line, j as int, p) {
                        let t = choose|t: int| 0 <= t < j as int && p == line.point_at(t);
                        assert(0 <= t <= line.len && p == line.point_at(t));
                    }
                    if line.on_line(p) {
                        let t = choose|t: int| 0 <= t <= line.len && p == line.point_at(t);
                        assert(0 <= t < j as int && p == line.point_at(t));
                    }
                }
                assert(line.on_line(p) ==> on_path_prefix(path1@, i as int + 1, p)) by {
                    if line.on_line(p) {
                        assert(path1@[i as int].on_line(p));
                    }
                }
                assert(on_path_prefix(path1@, i as int + 1, p)
                    ==> on_path_prefix(path1@, i as int, p) || line.on_line(p)) by {
                    if on_path_prefix(path1@, i as int + 1, p) {
                        let k = choose|k: int| 0 <= k < i as int + 1
                            && #[trigger] path1@[k].on_line(p);
                        if k < i as int {
                            assert(on_path_prefix(path1@, i as int, p));
                        }
                    }
                }
            }
        }
        i = i + 1;
    }
    crossings
}

/// Whether `p` lies on some segment of the given chain.
pub fn is_on_path(p: Point, path: &PathRef) -> (r: bool)
    ensures
        r == on_path(path@, p),
{
    let mut k: usize = 0;
    while k < path.len()
        invariant
            0 <= k <= path@.len(),
            forall|j: int| 0 <= j < k ==> !(#[trigger] path@[j].on_line(p)),
        decreases path@.len() - k,
    {
        if path[k].is_on(&p) {
            return true;
        }
        k = k + 1;
    }
    false
}

} // verus!
