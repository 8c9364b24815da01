use vstd::prelude::*;
use vstd::string::StrSliceExecFns;
use vstd::string::StringExecFns;

use crate::error::WebError;

verus! {

/// A character that a username may hold: an ASCII letter or digit, '_' or
/// '-'.
pub open spec fn username_char(c: char) -> bool {
    ||| ('a' as int) <= (c as int) <= ('z' as int)
    ||| ('A' as int) <= (c as int) <= ('Z' as int)
    ||| ('0' as int) <= (c as int) <= ('9' as int)
    ||| c == '_'
    ||| c == '-'
}

/// A username of 1 to 128 such characters.
pub open spec fn is_valid_username_spec(username: Seq<char>) -> bool {
    &&& 0 < username.len() <= 128
    &&& forall|i: int| 0 <= i < username.len() ==> username_char(#[trigger] username[i])
}

/// Whether `username` may be looked up: 1 to 128 ASCII letters, digits,
/// '_' or '-'. (Such a name has as many bytes as characters.)
pub fn is_valid_username(username: &str) -> (r: bool)
    ensures
        r == is_valid_username_spec(username@),
        r <==> (0 < username@.len() <= 128 && forall|i: int|
            0 <= i < username@.len() ==> {
                let c = #[trigger] username@[i];
                ||| 'a' <= c <= 'z'
                ||| 'A' <= c <= 'Z'
                ||| '0' <= c <= '9'
                ||| c == '_'
                ||| c == '-'
            }),
{
    proof {
        lemma_username_chars();
    }
    let n = username.unicode_len();
    if n == 0 || n > 128 {
        return false;
    }
    let mut i: usize = 0;
    while i < n
        invariant
            n == username@.len(),
            i <= n,
            forall|j: int| 0 <= j < i ==> username_char(#[trigger] username@[j]),
        decreases n - i,
    {
        let c = username.get_char(i);
        let code = c as u32;
        let ok = (97 <= code && code <= 122) || (65 <= code && code <= 90) || (48 <= code && code
            <= 57) || c == '_' || c == '-';
        if !ok {
            return false;
        }
        i = i + 1;
    }
    true
}

/// The characters of a username are exactly the ASCII letters of either
/// case, the ASCII digits, '_' and '-'.
pub proof fn lemma_username_chars()
    ensures
        forall|c: char| 'a' <= c <= 'z' ==> #[trigger] username_char(c),
        forall|c: char| 'A' <= c <= 'Z' ==> #[trigger] username_char(c),
        forall|c: char| '0' <= c <= '9' ==> #[trigger] username_char(c),
        username_char('_'),
        username_char('-'),
        forall|c: char|
            #[trigger] username_char(c) ==> ('a' <= c <= 'z' || 'A' <= c <= 'Z' || '0' <= c <= '9'
                || c == '_' || c == '-'),
{
}

/// A name of 1 to 128 characters, each of them an ASCII letter of either
/// case, an ASCII digit, '_' or '-', is a valid username; a name with any
/// other character, or of another length, is not.
pub proof fn lemma_valid_username_chars(username: Seq<char>)
    ensures
        is_valid_username_spec(username) <==> (0 < username.len() <= 128 && forall|i: int|
            0 <= i < username.len() ==> {
                let c = #[trigger] username[i];
                ||| 'a' <= c <= 'z'
                ||| 'A' <= c <= 'Z'
                ||| '0' <= c <= '9'
                ||| c == '_'
                ||| c == '-'
            }),
{
    lemma_username_chars();
}

/// The server path of a user's public profile; a malformed username is
/// refused.
pub fn user_path(username: &str) -> (r: Result<String, WebError>)
    ensures
        is_valid_username_spec(username@) ==> (r matches Ok(p) && p@ == "/user/"@ + username@),
        !is_valid_username_spec(username@) ==> (r matches Err(WebError::BadRequest(m)) && m@
            == "Invalid username"@),
{
    if !is_valid_username(username) {
        return Err(WebError::BadRequest(String::from_str("Invalid username")));
    }
    let mut p = String::from_str("/user/");
    p.append(username);
    Ok(p)
}

} // verus!
