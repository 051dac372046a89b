use vstd::prelude::*;
use vstd::string::*;

use crate::conf::PASSWORD_LEN;
use rand::Rng;

verus! {

/// Characters that generated passwords are drawn from: letters and digits
/// without the easily confused `0`, `O`, `o`, `I`, `l` and `1`.
pub const PASSWORD_ALPHABET: &'static str = "23456789ABCDEFGHJKLMNPQRSTUVWXYZabcdefghijkmnpqrstuvwxyz";

/// Number of characters in [`PASSWORD_ALPHABET`].
pub const ALPHABET_LEN: usize = 56;

/// Why a password was refused.
#[derive(Debug, Clone, Copy, PartialEq, Eq, Structural)]
pub enum PasswordError {
    TooShort,
}

/// A password is acceptable when it has at least `PASSWORD_LEN` characters.
pub open spec fn valid_password(pw: Seq<char>) -> bool {
    pw.len() >= PASSWORD_LEN
}

/// Whether every character of `s` comes from the password alphabet.
pub open spec fn from_alphabet(s: Seq<char>) -> bool {
    forall|i: int| 0 <= i < s.len() ==> PASSWORD_ALPHABET@.contains(#[trigger] s[i])
}

/// Relies on rand's `Rng::gen_range` on the thread-local generator: a uniform
/// value in `0..n`, which the crate asserts to be non-empty.
#[verifier::external_body]
fn random_below(n: usize) -> (r: usize)
    requires
        n > 0,
    ensures
        r < n,
{
    rand::thread_rng().gen_range(0..n)
}

/// Whether `pw` is long enough, counted in characters.
pub fn validate_pw(pw: &String) -> (r: bool)
    ensures
        r == valid_password(pw@),
{
    PASSWORD_LEN <= pw.as_str().unicode_len()
}

/// A fresh password of `PASSWORD_LEN` characters drawn uniformly from
/// [`PASSWORD_ALPHABET`].
pub fn generate_random_password() -> (r: String)
    ensures
        r@.len() == PASSWORD_LEN,
        from_alphabet(r@),
        valid_password(r@),
{
    proof {
        reveal_strlit("23456789ABCDEFGHJKLMNPQRSTUVWXYZabcdefghijkmnpqrstuvwxyz");
    }
    let alphabet: &str = PASSWORD_ALPHABET;
    assert(alphabet@.len() == ALPHABET_LEN);
    let mut out = String::new();
    let mut i: usize = 0;
    while i < PASSWORD_LEN
        invariant
            i <= PASSWORD_LEN,
            out@.len() == i,
            alphabet@ == PASSWORD_ALPHABET@,
            alphabet@.len() == ALPHABET_LEN,
            from_alphabet(out@),
        decreases PASSWORD_LEN - i,
    {
        let k = random_below(ALPHABET_LEN);
        let c = alphabet.substring_char(k, k + 1);
        assert(alphabet@.contains(c@[0])) by {
            assert(c@[0] == alphabet@[k as int]);
        }
        let ghost prev = out@;
        out.append(c);
        assert(forall|j: int| 0 <= j < out@.len() ==> PASSWORD_ALPHABET@.contains(#[trigger] out@[j])) by {
            assert forall|j: int| 0 <= j < out@.len() implies PASSWORD_ALPHABET@.contains(#[trigger] out@[j]) by {
                if j < prev.len() {
                    assert(out@[j] == prev[j]);
                } else {
                    assert(out@[j] == c@[0]);
                }
            }
        }
        i = i + 1;
    }
    out
}

/// The password to use: the one given when it is long enough, a generated one
/// when none is given.
pub fn validate_generate_pw(pw: Option<String>) -> (r: Result<String, PasswordError>)
    ensures
        pw is Some ==> (valid_password(pw->0@) <==> r is Ok),
        pw is Some && r is Ok ==> r->Ok_0@ == pw->0@,
        pw is Some && r is Err ==> r->Err_0 == PasswordError::TooShort,
        pw is None ==> r is Ok && r->Ok_0@.len() == PASSWORD_LEN && from_alphabet(r->Ok_0@),
        r is Ok ==> valid_password(r->Ok_0@),
{
    let pass = match pw {
        Some(p) => p,
        None => generate_random_password(),
    };
    if validate_pw(&pass) {
        Ok(pass)
    } else {
        Err(PasswordError::TooShort)
    }
}

} // verus!
