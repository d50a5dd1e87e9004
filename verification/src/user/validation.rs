use vstd::prelude::*;

verus! {

/// What `str::trim` leaves of a string.
pub uninterp spec fn trimmed(s: Seq<char>) -> Seq<char>;

/// What `char::is_alphanumeric` says of a character.
pub uninterp spec fn alphanumeric(c: char) -> bool;

/// What `char::is_uppercase` says of a character.
pub uninterp spec fn uppercase(c: char) -> bool;

/// What `char::is_numeric` says of a character.
pub uninterp spec fn numeric(c: char) -> bool;

/// What `char::is_whitespace` says of a character (also the class `\s` of
/// the e-mail pattern).
pub uninterp spec fn whitespace(c: char) -> bool;

/// An ASCII letter or digit.
pub open spec fn ascii_alphanumeric(c: char) -> bool {
    ('a' <= c && c <= 'z') || ('A' <= c && c <= 'Z') || ('0' <= c && c <= '9')
}

/// The number of bytes of a character in UTF-8.
pub open spec fn utf8_width(c: char) -> nat {
    if (c as nat) < 0x80 {
        1
    } else if (c as nat) < 0x800 {
        2
    } else if (c as nat) < 0x10000 {
        3
    } else {
        4
    }
}

/// The number of bytes of a string in UTF-8.
pub open spec fn utf8_len(s: Seq<char>) -> nat
    decreases s.len(),
{
    if s.len() == 0 {
        0
    } else {
        utf8_len(s.drop_last()) + utf8_width(s.last())
    }
}

/// `r` is `s` without its leading and trailing whitespace: a slice of it
/// that neither starts nor ends with whitespace, cut where only
/// whitespace is left out.
pub open spec fn trim_of(s: Seq<char>, r: Seq<char>) -> bool {
    exists|i: int, j: int|
        0 <= i <= j <= s.len() && r == s.subrange(i, j) && (forall|k: int|
            0 <= k < i ==> whitespace(#[trigger] s[k])) && (forall|k: int|
            j <= k < s.len() ==> whitespace(#[trigger] s[k])) && (i < j ==> !whitespace(s[i])
            && !whitespace(s[j - 1]))
}

/// The string without its leading and trailing whitespace (`str::trim`).
///
/// Trusted: the contract names the result and claims what the standard
/// library documents: the slice left when leading and trailing whitespace
/// (`char::is_whitespace`) is removed; space, tab, line feed and carriage
/// return are such whitespace, so a string of them alone leaves nothing.
#[verifier::external_body]
fn trim(s: &str) -> (r: &str)
    ensures
        r@ == trimmed(s@),
        trim_of(s@, r@),
        r@.len() > 0 ==> !whitespace(r@[0]) && !whitespace(r@.last()),
        (forall|i: int|
            0 <= i < s@.len() ==> #[trigger] s@[i] == ' ' || s@[i] == '\t' || s@[i] == '\n' || s@[i] == '\r')
            ==> r@.len() == 0,
{
    s.trim()
}

/// The length of a string in bytes (`str::len`).
///
/// Trusted: the contract claims what the standard library documents, the
/// number of bytes of its UTF-8 encoding.
#[verifier::external_body]
fn byte_len(s: &str) -> (r: usize)
    ensures
        r == utf8_len(s@),
{
    s.len()
}

/// Whether a character is a letter or a digit (`char::is_alphanumeric`).
///
/// Trusted: the contract names the result and claims, for ASCII, what the
/// standard library documents: exactly the letters and digits.
#[verifier::external_body]
fn is_alphanumeric(c: char) -> (r: bool)
    ensures
        r == alphanumeric(c),
        (c as nat) < 128 ==> (r == ascii_alphanumeric(c)),
{
    c.is_alphanumeric()
}

/// Whether a character is upper case (`char::is_uppercase`).
///
/// Trusted: the contract names the result and claims, for ASCII, what the
/// standard library documents: exactly 'A' to 'Z'.
#[verifier::external_body]
fn is_uppercase(c: char) -> (r: bool)
    ensures
        r == uppercase(c),
        (c as nat) < 128 ==> (r == ('A' <= c && c <= 'Z')),
{
    c.is_uppercase()
}

/// Whether a character is numeric (`char::is_numeric`).
///
/// Trusted: the contract names the result and claims, for ASCII, what the
/// standard library documents: exactly '0' to '9'.
#[verifier::external_body]
fn is_numeric(c: char) -> (r: bool)
    ensures
        r == numeric(c),
        (c as nat) < 128 ==> (r == ('0' <= c && c <= '9')),
{
    c.is_numeric()
}

/// Whether the string has the shape of an e-mail address: a part without
/// '@' or whitespace, '@', and a part without them that holds a '.' with
/// something on both sides.
pub open spec fn email_shape(e: Seq<char>) -> bool {
    exists|at: int|
        #![trigger e[at]]
        0 < at < e.len() && e[at] == '@' && no_at_or_space(e.subrange(0, at)) && no_at_or_space(
            e.subrange(at + 1, e.len() as int),
        ) && exists|dot: int|
            #![trigger e[dot]]
            at + 1 < dot < e.len() - 1 && e[dot] == '.'
}

/// Whether a string holds no '@' and no whitespace.
pub open spec fn no_at_or_space(s: Seq<char>) -> bool {
    forall|i: int| 0 <= i < s.len() ==> s[i] != '@' && !whitespace(#[trigger] s[i])
}


/// The e-mail rule as a regular expression: `^[^@\s]+@[^@\s]+\.[^@\s]+$`.
pub open spec fn email_pattern() -> Seq<char> {
    "^[^@\\s]+@[^@\\s]+\\.[^@\\s]+$"@
}

/// What `regex::Regex::new(pattern)` and then `is_match(text)` give:
/// `None` when the pattern does not compile.
pub uninterp spec fn regex_match(pattern: Seq<char>, text: Seq<char>) -> Option<bool>;

/// Whether `text` matches the regular expression `pattern`
/// (`regex::Regex::new` and `Regex::is_match`), or `None` when the pattern
/// does not compile.
///
/// Trusted: the contract names the result, and claims for the e-mail
/// pattern what the crate documents of it: `^` and `$` anchor at the ends
/// of the text, `[^@\s]` is any character but '@' and Unicode white space,
/// and `+` is one or more; that is `email_shape`.
#[verifier::external_body]
fn regex_is_match(pattern: &str, text: &str) -> (r: Option<bool>)
    ensures
        r == regex_match(pattern@, text@),
        pattern@ == email_pattern() ==> r == Some(email_shape(text@)),
{
    match regex::Regex::new(pattern) {
        Ok(re) => Some(re.is_match(text)),
        Err(_) => None,
    }
}

/// Whether the string has the shape of an e-mail address, by the e-mail
/// pattern.
fn matches_email_pattern(e: &str) -> (r: bool)
    ensures
        r == email_shape(e@),
{
    let pattern = "^[^@\\s]+@[^@\\s]+\\.[^@\\s]+$";
    match regex_is_match(pattern, e) {
        Some(b) => b,
        None => false,
    }
}

/// A name is not acceptable when it has a character other than a letter, a
/// digit or '_'.
pub open spec fn bad_name_char(name: Seq<char>) -> bool {
    exists|i: int| 0 <= i < name.len() && !(alphanumeric(#[trigger] name[i]) || name[i] == '_')
}

/// Checks a user name: trimmed, it is not empty, has 3 to 20 bytes, and
/// only letters, digits and '_'.
pub fn validate_username(username: &str) -> (r: Result<(), &'static str>)
    ensures
        ({
            let name = trimmed(username@);
            if name.len() == 0 {
                r matches Err(m) && m@ == "Username cannot be empty"@
            } else if utf8_len(name) < 3 || utf8_len(name) > 20 {
                r matches Err(m) && m@ == "Username must be at between 3 and 20 characters long"@
            } else if bad_name_char(name) {
                r matches Err(m) && m@ == "Username may only contain letter, numbers and underscores"@
            } else {
                r is Ok
            }
        }),
{
    let name = trim(username);
    if name.unicode_len() == 0 {
        return Err("Username cannot be empty");
    }
    let len: usize = byte_len(name);
    if len < 3 || len > 20 {
        return Err("Username must be at between 3 and 20 characters long");
    }
    let n: usize = name.unicode_len();
    let mut i: usize = 0;
    while i < n
        invariant
            i <= n,
            n == name@.len(),
            name@ == trimmed(username@),
            name@.len() > 0,
            3 <= utf8_len(name@) <= 20,
            forall|j: int| 0 <= j < i ==> alphanumeric(#[trigger] name@[j]) || name@[j] == '_',
        decreases n - i,
    {
        let c = name.get_char(i);
        if !(is_alphanumeric(c) || c == '_') {
            assert(!(alphanumeric(name@[i as int]) || name@[i as int] == '_'));
            return Err("Username may only contain letter, numbers and underscores");
        }
        i = i + 1;
    }
    Ok(())
}

/// Checks an e-mail address: trimmed, it is not empty and has the shape of
/// an address.
pub fn validate_email(email: &str) -> (r: Result<(), &'static str>)
    ensures
        ({
            let e = trimmed(email@);
            if e.len() == 0 {
                r matches Err(m) && m@ == "Email cannot be empty"@
            } else if !email_shape(e) {
                r matches Err(m) && m@ == "Email format is invalid"@
            } else {
                r is Ok
            }
        }),
{
    let e = trim(email);
    if e.unicode_len() == 0 {
        return Err("Email cannot be empty");
    }
    if !matches_email_pattern(e) {
        return Err("Email format is invalid");
    }
    Ok(())
}

/// The first `n` characters include one that satisfies `p`.
pub open spec fn any_char(s: Seq<char>, p: spec_fn(char) -> bool) -> bool {
    exists|i: int| 0 <= i < s.len() && #[trigger] p(s[i])
}

/// Checks a password: at least 8 bytes, with an upper-case letter, a digit
/// and a character that is neither a letter nor a digit.
pub fn validate_password(password: &str) -> (r: Result<(), &'static str>)
    ensures
        ({
            let p = password@;
            if utf8_len(p) < 8 {
                r matches Err(m) && m@ == "Password must be at least 8 characters long"@
            } else if !any_char(p, |c: char| uppercase(c)) {
                r matches Err(m) && m@ == "Password must contain at least one uppercase letter"@
            } else if !any_char(p, |c: char| numeric(c)) {
                r matches Err(m) && m@ == "Password must contain at least one number"@
            } else if !any_char(p, |c: char| !alphanumeric(c)) {
                r matches Err(m) && m@ == "Password must contain at least one special character"@
            } else {
                r is Ok
            }
        }),
{
    if byte_len(password) < 8 {
        return Err("Password must be at least 8 characters long");
    }
    let n: usize = password.unicode_len();
    if !any_char_where(password, n, 0) {
        return Err("Password must contain at least one uppercase letter");
    }
    if !any_char_where(password, n, 1) {
        return Err("Password must contain at least one number");
    }
    if !any_char_where(password, n, 2) {
        return Err("Password must contain at least one special character");
    }
    Ok(())
}

/// The test on characters that `kind` picks: upper case (0), numeric (1),
/// neither letter nor digit (2).
pub open spec fn char_test(kind: u8) -> spec_fn(char) -> bool {
    if kind == 0 {
        |c: char| uppercase(c)
    } else if kind == 1 {
        |c: char| numeric(c)
    } else {
        |c: char| !alphanumeric(c)
    }
}

/// Whether some character of `s` passes the test that `kind` picks.
fn any_char_where(s: &str, n: usize, kind: u8) -> (r: bool)
    requires
        n == s@.len(),
    ensures
        r == any_char(s@, char_test(kind)),
{
    let ghost p = char_test(kind);
    let mut i: usize = 0;
    while i < n
        invariant
            i <= n,
            n == s@.len(),
            p == char_test(kind),
            forall|j: int| 0 <= j < i ==> !p(#[trigger] s@[j]),
        decreases n - i,
    {
        let c = s.get_char(i);
        let hit = if kind == 0 {
            is_uppercase(c)
        } else if kind == 1 {
            is_numeric(c)
        } else {
            !is_alphanumeric(c)
        };
        if hit {
            assert(p(s@[i as int]));
            return true;
        }
        i = i + 1;
    }
    false
}

} // verus!
