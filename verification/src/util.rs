//! Small tools for the terminal: the mark for tabulators, blank input, and
//! the first character of a line.

use vstd::prelude::*;
use vstd::string::*;
use crate::text::{chars_of, text_of};

verus! {

/// The code points that Unicode gives the property `White_Space`.
pub open spec fn is_whitespace(c: char) -> bool {
    let n = c as u32;
    ||| 0x09 <= n <= 0x0D
    ||| n == 0x20
    ||| n == 0x85
    ||| n == 0xA0
    ||| n == 0x1680
    ||| 0x2000 <= n <= 0x200A
    ||| n == 0x2028
    ||| n == 0x2029
    ||| n == 0x202F
    ||| n == 0x205F
    ||| n == 0x3000
}

/// A text is blank when it holds nothing but white space.
pub open spec fn is_blank(s: Seq<char>) -> bool {
    forall|i: int| 0 <= i < s.len() ==> is_whitespace(#[trigger] s[i])
}

/// The mark that stands for a tabulator in the texts of the wallet.
pub const TAB: &'static str = "<TAB>";

/// Whether the mark stands at place `i` of `s`.
pub open spec fn tab_at(s: Seq<char>, i: int) -> bool {
    0 <= i && i + 5 <= s.len() && s.subrange(i, i + 5) == TAB@
}

/// The text with a tabulator in place of each mark, from place `i` on; the
/// marks are taken from left to right.
pub open spec fn expanded_from(s: Seq<char>, i: int) -> Seq<char>
    decreases s.len() - i,
{
    if i < 0 || i >= s.len() {
        Seq::empty()
    } else if tab_at(s, i) {
        seq!['\t'] + expanded_from(s, i + 5)
    } else {
        seq![s[i]] + expanded_from(s, i + 1)
    }
}

/// The text with a tabulator in place of each mark.
pub open spec fn expanded(s: Seq<char>) -> Seq<char> {
    expanded_from(s, 0)
}

/// Puts a tabulator in place of each mark.
pub fn expand_tabs(msg: &str) -> (text: String)
    ensures
        text@ == expanded(msg@),
{
    let chars = chars_of(msg);
    let n = chars.len();
    let mut out: Vec<char> = Vec::new();
    let mut i: usize = 0;
    proof {
        reveal_strlit("<TAB>");
    }
    while i < n
        invariant
            i <= n,
            n == chars.len(),
            chars@ == msg@,
            out@ + expanded_from(msg@, i as int) == expanded(msg@),
            TAB@ == seq!['<', 'T', 'A', 'B', '>'],
        decreases n - i,
    {
        let ghost rest = expanded_from(msg@, i as int);
        if n - i >= 5 && chars[i] == '<' && chars[i + 1] == 'T' && chars[i + 2] == 'A' && chars[i
            + 3] == 'B' && chars[i + 4] == '>' {
            proof {
                assert(msg@.subrange(i as int, i + 5) =~= TAB@);
                assert(out@.push('\t') + expanded_from(msg@, i + 5) =~= out@ + rest);
            }
            out.push('\t');
            i = i + 5;
        } else {
            proof {
                if i + 5 <= n {
                    let piece = msg@.subrange(i as int, i + 5);
                    assert(piece[0] == msg@[i as int]);
                    assert(piece[1] == msg@[i + 1]);
                    assert(piece[2] == msg@[i + 2]);
                    assert(piece[3] == msg@[i + 3]);
                    assert(piece[4] == msg@[i + 4]);
                }
                assert(!tab_at(msg@, i as int));
                assert(out@.push(msg@[i as int]) + expanded_from(msg@, i + 1) =~= out@ + rest);
            }
            out.push(chars[i]);
            i = i + 1;
        }
    }
    proof {
        assert(out@ + expanded_from(msg@, n as int) =~= out@);
    }
    text_of(&out)
}

/// Decides whether `c` is white space.
pub fn whitespace(c: char) -> (b: bool)
    ensures
        b == is_whitespace(c),
{
    let n: u32 = c as u32;
    (0x09 <= n && n <= 0x0D) || n == 0x20 || n == 0x85 || n == 0xA0 || n == 0x1680 || (0x2000 <= n
        && n <= 0x200A) || n == 0x2028 || n == 0x2029 || n == 0x202F || n == 0x205F || n == 0x3000
}

/// Decides whether `s` is blank.
pub fn blank(s: &str) -> (b: bool)
    ensures
        b == is_blank(s@),
{
    let mut b: bool = true;
    for c in it: s.chars()
        invariant
            it.seq() == s@,
            b == is_blank(s@.take(it.index() as int)),
    {
        proof {
            let k = it.index() as int;
            let shorter = s@.take(k);
            let longer = s@.take(k + 1);
            assert(longer[k] == c);
            assert(forall|i: int| 0 <= i < k ==> longer[i] == shorter[i]);
            if is_blank(longer) {
                assert(forall|i: int| 0 <= i < k ==> is_whitespace(#[trigger] shorter[i])) by {
                    assert(forall|i: int| 0 <= i < k ==> shorter[i] == longer[i]);
                }
            }
        }
        b = b && whitespace(c);
    }
    proof {
        assert(s@.take(s@.len() as int) == s@);
    }
    b
}

/// The first character of a text that has one.
pub fn first_char(str: &str) -> (c: char)
    requires
        str@.len() > 0,
    ensures
        c == str@[0],
{
    str.get_char(0)
}

/// The value of a configuration prompt: what the user typed, or the
/// standard value where the user typed nothing but white space.
pub fn read_config_input(user_input: &str, standard: &str) -> (value: String)
    ensures
        value@ == if is_blank(user_input@) {
            standard@
        } else {
            user_input@
        },
{
    if blank(user_input) {
        String::from_str(standard)
    } else {
        String::from_str(user_input)
    }
}

} // verus!
