use vstd::prelude::*;
use vstd::string::StrSliceExecFns;

verus! {

/// `ch` is a file letter, 'a' to 'h'.
pub open spec fn is_file(ch: char) -> bool {
    'a' <= ch <= 'h'
}

/// `ch` is a rank digit, '1' to '8'.
pub open spec fn is_rank(ch: char) -> bool {
    '1' <= ch <= '8'
}

/// The (row, column) named by a file letter and a rank digit, such as "e2", or `None` for
/// any other text.
pub fn parse_square(s: &str) -> (sq: Option<(usize, usize)>)
    ensures
        sq is Some <==> (s@.len() == 2 && is_file(s@[0]) && is_rank(s@[1])),
        sq is Some ==> sq->Some_0.0 == s@[1] as int - '1' as int && sq->Some_0.1 == s@[0] as int
            - 'a' as int,
{
    if s.unicode_len() != 2 {
        return None;
    }
    let file = s.get_char(0);
    let rank = s.get_char(1);
    if !('a' <= file && file <= 'h') {
        return None;
    }
    if !('1' <= rank && rank <= '8') {
        return None;
    }
    let col = (file as u32 - 'a' as u32) as usize;
    let row = (rank as u32 - '1' as u32) as usize;
    Some((row, col))
}

} // verus!
