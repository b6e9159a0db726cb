//! Account form validation: the rules a submitted username and password
//! must meet, and the flash messages shown when they do not.
//!
//! A username is 2 to 16 characters of letters, digits and underscores; a
//! password is 4 to 32 characters of anything but a line break (the length
//! rules count characters and never match across a line break).  Signup
//! additionally requires the password and its confirmation to agree.

use vstd::prelude::*;

verus! {

/// User-visible validation message.
#[derive(Clone, Copy, PartialEq, Eq, Structural, Debug)]
pub enum Flash {
    UsernameTaken,
    UserDoesNotExist,
    InvalidPassword,
    UsernameInvalidChars,
    UsernameInvalidLength,
    PasswordInvalidLength,
    PasswordsDiffer,
}

/// The text shown for a flash message.
pub open spec fn flash_text(f: Flash) -> Seq<char> {
    match f {
        Flash::UsernameTaken => "Dieser Benutzername ist bereits vergeben."@,
        Flash::UserDoesNotExist => "Dieser Benutzer scheint nicht zu existieren."@,
        Flash::InvalidPassword => "Das Passwort ist nicht korrekt."@,
        Flash::UsernameInvalidChars => "Der Benutzername enthält ungültige Zeichen."@,
        Flash::UsernameInvalidLength => "Der Benutzername muss zwischen 2 und 16 Zeichen lang sein."@,
        Flash::PasswordInvalidLength => "Das Passwort muss zwischen 4 und 32 Zeichen lang sein."@,
        Flash::PasswordsDiffer => "Die Passwörter stimmen nicht überein."@,
    }
}

impl Flash {
    /// Renders the message for display.
    pub fn message(&self) -> (r: String)
        ensures
            r@ == flash_text(*self),
    {
        match self {
            Flash::UsernameTaken => String::from_str("Dieser Benutzername ist bereits vergeben."),
            Flash::UserDoesNotExist => String::from_str(
                "Dieser Benutzer scheint nicht zu existieren.",
            ),
            Flash::InvalidPassword => String::from_str("Das Passwort ist nicht korrekt."),
            Flash::UsernameInvalidChars => String::from_str(
                "Der Benutzername enthält ungültige Zeichen.",
            ),
            Flash::UsernameInvalidLength => String::from_str(
                "Der Benutzername muss zwischen 2 und 16 Zeichen lang sein.",
            ),
            Flash::PasswordInvalidLength => String::from_str(
                "Das Passwort muss zwischen 4 und 32 Zeichen lang sein.",
            ),
            Flash::PasswordsDiffer => String::from_str("Die Passwörter stimmen nicht überein."),
        }
    }
}

/// The ghost image of an optional string field.
pub open spec fn opt_view(o: Option<String>) -> Option<Seq<char>> {
    match o {
        Some(s) => Some(s@),
        None => None,
    }
}

/// A character a username may contain.
pub open spec fn username_char_ok(c: char) -> bool {
    ('a' <= c && c <= 'z') || ('A' <= c && c <= 'Z') || ('0' <= c && c <= '9') || c == '_'
}

/// Username length rule: 2 to 16 characters, none of them a line break.
pub open spec fn valid_username_len(s: Seq<char>) -> bool {
    2 <= s.len() <= 16 && forall|i: int| 0 <= i < s.len() ==> s[i] != '\n'
}

/// Username character rule: letters, digits and underscores only.
pub open spec fn valid_username_chars(s: Seq<char>) -> bool {
    forall|i: int| 0 <= i < s.len() ==> username_char_ok(#[trigger] s[i])
}

/// Password length rule: 4 to 32 characters, none of them a line break.
pub open spec fn valid_password_len(s: Seq<char>) -> bool {
    4 <= s.len() <= 32 && forall|i: int| 0 <= i < s.len() ==> s[i] != '\n'
}

/// The flashes a submitted username earns, in display order: the length
/// complaint first, then the character complaint.  A missing field reads
/// as a length failure.
pub open spec fn username_errors(o: Option<Seq<char>>) -> Seq<Flash> {
    match o {
        None => seq![Flash::UsernameInvalidLength],
        Some(u) => (if !valid_username_len(u) {
            seq![Flash::UsernameInvalidLength]
        } else {
            Seq::<Flash>::empty()
        }) + (if !valid_username_chars(u) {
            seq![Flash::UsernameInvalidChars]
        } else {
            Seq::<Flash>::empty()
        }),
    }
}

/// The flashes a submitted password earns.
pub open spec fn password_errors(o: Option<Seq<char>>) -> Seq<Flash> {
    match o {
        None => seq![Flash::PasswordInvalidLength],
        Some(p) => if !valid_password_len(p) {
            seq![Flash::PasswordInvalidLength]
        } else {
            Seq::<Flash>::empty()
        },
    }
}

/// The flashes a password with its confirmation earns: disagreement first,
/// then the password rules.
pub open spec fn confirm_errors(p: Option<Seq<char>>, c: Option<Seq<char>>) -> Seq<Flash> {
    (if p != c {
        seq![Flash::PasswordsDiffer]
    } else {
        Seq::<Flash>::empty()
    }) + password_errors(p)
}

/// The submitted account form: each known field, present or absent.
pub struct Form {
    pub username: Option<String>,
    pub password: Option<String>,
    pub confirm_password: Option<String>,
}

/// Checked account credentials as validation hands them on.
#[derive(Clone, PartialEq, Eq, Debug)]
pub struct User {
    pub username: String,
    pub password: String,
}

fn check_username_len(s: &String) -> (r: bool)
    ensures
        r == valid_username_len(s@),
{
    let text = s.as_str();
    let n = text.unicode_len();
    if n < 2 || n > 16 {
        return false;
    }
    let mut i: usize = 0;
    while i < n
        invariant
            i <= n,
            n == s@.len(),
            text@ == s@,
            forall|k: int| 0 <= k < i ==> s@[k] != '\n',
        decreases n - i,
    {
        if text.get_char(i) == '\n' {
            return false;
        }
        i += 1;
    }
    true
}

fn check_username_chars(s: &String) -> (r: bool)
    ensures
        r == valid_username_chars(s@),
{
    let text = s.as_str();
    let n = text.unicode_len();
    let mut i: usize = 0;
    while i < n
        invariant
            i <= n,
            n == s@.len(),
            text@ == s@,
            forall|k: int| 0 <= k < i ==> username_char_ok(#[trigger] s@[k]),
        decreases n - i,
    {
        let c = text.get_char(i);
        let ok = ('a' <= c && c <= 'z') || ('A' <= c && c <= 'Z') || ('0' <= c && c <= '9') || c
            == '_';
        if !ok {
            return false;
        }
        i += 1;
    }
    true
}

fn check_password_len(s: &String) -> (r: bool)
    ensures
        r == valid_password_len(s@),
{
    let text = s.as_str();
    let n = text.unicode_len();
    if n < 4 || n > 32 {
        return false;
    }
    let mut i: usize = 0;
    while i < n
        invariant
            i <= n,
            n == s@.len(),
            text@ == s@,
            forall|k: int| 0 <= k < i ==> s@[k] != '\n',
        decreases n - i,
    {
        if text.get_char(i) == '\n' {
            return false;
        }
        i += 1;
    }
    true
}

fn take_field(field: &mut Option<String>) -> (taken: Option<String>)
    ensures
        taken == *old(field),
        *final(field) is None,
{
    let mut taken: Option<String> = None;
    core::mem::swap(&mut taken, field);
    taken
}

/// Removes the username from the form and validates it: the username when
/// both rules hold, otherwise the exact flashes of `username_errors`.
pub fn extract_username(form: &mut Form) -> (r: Result<String, Vec<Flash>>)
    ensures
        final(form).username is None,
        final(form).password == old(form).password,
        final(form).confirm_password == old(form).confirm_password,
        r is Ok <==> username_errors(opt_view(old(form).username)).len() == 0,
        r is Ok ==> old(form).username == Some(r->Ok_0),
        r is Err ==> r->Err_0@ == username_errors(opt_view(old(form).username)),
{
    let username = take_field(&mut form.username);
    match username {
        Some(u) => {
            let mut errors: Vec<Flash> = Vec::new();
            if !check_username_len(&u) {
                errors.push(Flash::UsernameInvalidLength);
            }
            if !check_username_chars(&u) {
                errors.push(Flash::UsernameInvalidChars);
            }
            if errors.len() == 0 {
                proof {
                    assert(username_errors(opt_view(Some(u))).len() == 0);
                }
                Ok(u)
            } else {
                proof {
                    assert(errors@ =~= username_errors(opt_view(Some(u))));
                }
                Err(errors)
            }
        },
        None => {
            let mut errors: Vec<Flash> = Vec::new();
            errors.push(Flash::UsernameInvalidLength);
            proof {
                assert(errors@ =~= username_errors(None));
            }
            Err(errors)
        },
    }
}

/// Removes the password from the form and validates its length: the
/// password when the rule holds, otherwise the exact flashes of
/// `password_errors`.
pub fn extract_password(form: &mut Form) -> (r: Result<String, Vec<Flash>>)
    ensures
        final(form).password is None,
        final(form).username == old(form).username,
        final(form).confirm_password == old(form).confirm_password,
        r is Ok <==> password_errors(opt_view(old(form).password)).len() == 0,
        r is Ok ==> old(form).password == Some(r->Ok_0),
        r is Err ==> r->Err_0@ == password_errors(opt_view(old(form).password)),
{
    let password = take_field(&mut form.password);
    match password {
        Some(p) => {
            if check_password_len(&p) {
                Ok(p)
            } else {
                let mut errors: Vec<Flash> = Vec::new();
                errors.push(Flash::PasswordInvalidLength);
                proof {
                    assert(errors@ =~= password_errors(opt_view(Some(p))));
                }
                Err(errors)
            }
        },
        None => {
            let mut errors: Vec<Flash> = Vec::new();
            errors.push(Flash::PasswordInvalidLength);
            proof {
                assert(errors@ =~= password_errors(None));
            }
            Err(errors)
        },
    }
}

/// The flashes a whole signin form earns: the username's complaints first,
/// then the password's.
pub open spec fn signin_errors(u: Option<Seq<char>>, p: Option<Seq<char>>) -> Seq<Flash> {
    username_errors(u) + password_errors(p)
}

/// The flashes a whole signup form earns: the username's complaints first,
/// then those of the password with its confirmation.
pub open spec fn signup_errors(
    u: Option<Seq<char>>,
    p: Option<Seq<char>>,
    c: Option<Seq<char>>,
) -> Seq<Flash> {
    username_errors(u) + confirm_errors(p, c)
}

fn append_flashes(out: &mut Vec<Flash>, more: Vec<Flash>)
    ensures
        final(out)@ == old(out)@ + more@,
{
    let ghost pre = out@;
    let mut i: usize = 0;
    proof {
        assert(pre + more@.take(0) =~= pre);
    }
    while i < more.len()
        invariant
            i <= more@.len(),
            out@ == pre + more@.take(i as int),
        decreases more@.len() - i,
    {
        out.push(more[i]);
        proof {
            assert(pre + more@.take(i as int) + seq![more@[i as int]] =~= pre + more@.take(
                i + 1,
            ));
        }
        i += 1;
    }
    proof {
        assert(more@.take(more@.len() as int) =~= more@);
    }
}

/// Validates a signin (or account-deletion) form as a whole: the checked
/// credentials when every rule holds, otherwise all the flashes the fields
/// earn, the username's first.
pub fn signin_form(form: &mut Form) -> (r: Result<User, Vec<Flash>>)
    ensures
        final(form).username is None,
        final(form).password is None,
        final(form).confirm_password == old(form).confirm_password,
        r is Ok <==> signin_errors(
            opt_view(old(form).username),
            opt_view(old(form).password),
        ).len() == 0,
        r is Ok ==> old(form).username == Some(r->Ok_0.username) && old(form).password == Some(
            r->Ok_0.password,
        ),
        r is Err ==> r->Err_0@ == signin_errors(
            opt_view(old(form).username),
            opt_view(old(form).password),
        ),
{
    let username = extract_username(form);
    let password = extract_password(form);
    match (username, password) {
        (Ok(username), Ok(password)) => {
            proof {
                assert(signin_errors(
                    opt_view(old(form).username),
                    opt_view(old(form).password),
                ) =~= Seq::<Flash>::empty());
            }
            Ok(User { username, password })
        },
        (Ok(_), Err(perr)) => {
            let mut errors: Vec<Flash> = Vec::new();
            append_flashes(&mut errors, perr);
            proof {
                assert(errors@ =~= signin_errors(
                    opt_view(old(form).username),
                    opt_view(old(form).password),
                ));
            }
            Err(errors)
        },
        (Err(uerr), Ok(_)) => {
            let mut errors: Vec<Flash> = Vec::new();
            append_flashes(&mut errors, uerr);
            proof {
                assert(errors@ =~= signin_errors(
                    opt_view(old(form).username),
                    opt_view(old(form).password),
                ));
            }
            Err(errors)
        },
        (Err(uerr), Err(perr)) => {
            let mut errors: Vec<Flash> = Vec::new();
            append_flashes(&mut errors, uerr);
            append_flashes(&mut errors, perr);
            proof {
                assert(errors@ =~= signin_errors(
                    opt_view(old(form).username),
                    opt_view(old(form).password),
                ));
            }
            Err(errors)
        },
    }
}

/// Validates a signup form as a whole: like [`signin_form`], but the
/// password must also agree with its confirmation.
pub fn signup_form(form: &mut Form) -> (r: Result<User, Vec<Flash>>)
    ensures
        final(form).username is None,
        final(form).password is None,
        final(form).confirm_password == old(form).confirm_password,
        r is Ok <==> signup_errors(
            opt_view(old(form).username),
            opt_view(old(form).password),
            opt_view(old(form).confirm_password),
        ).len() == 0,
        r is Ok ==> old(form).username == Some(r->Ok_0.username) && old(form).password == Some(
            r->Ok_0.password,
        ),
        r is Err ==> r->Err_0@ == signup_errors(
            opt_view(old(form).username),
            opt_view(old(form).password),
            opt_view(old(form).confirm_password),
        ),
{
    let ghost u = opt_view(old(form).username);
    let ghost p = opt_view(old(form).password);
    let ghost c = opt_view(old(form).confirm_password);
    let username = extract_username(form);
    let password = extract_confirm_password(form);
    match (username, password) {
        (Ok(username), Ok(password)) => {
            proof {
                assert(signup_errors(u, p, c) =~= Seq::<Flash>::empty());
            }
            Ok(User { username, password })
        },
        (Ok(_), Err(perr)) => {
            let mut errors: Vec<Flash> = Vec::new();
            append_flashes(&mut errors, perr);
            proof {
                assert(errors@ =~= signup_errors(u, p, c));
            }
            Err(errors)
        },
        (Err(uerr), Ok(_)) => {
            let mut errors: Vec<Flash> = Vec::new();
            append_flashes(&mut errors, uerr);
            proof {
                assert(errors@ =~= signup_errors(u, p, c));
            }
            Err(errors)
        },
        (Err(uerr), Err(perr)) => {
            let mut errors: Vec<Flash> = Vec::new();
            append_flashes(&mut errors, uerr);
            append_flashes(&mut errors, perr);
            proof {
                assert(errors@ =~= signup_errors(u, p, c));
            }
            Err(errors)
        },
    }
}

fn opt_string_eq(a: &Option<String>, b: &Option<String>) -> (r: bool)
    ensures
        r == (opt_view(*a) == opt_view(*b)),
{
    match (a, b) {
        (Some(x), Some(y)) => x.eq(y),
        (None, None) => true,
        _ => false,
    }
}

/// Removes the password from the form and validates it for signup: the
/// password must agree with the confirmation field and meet the length
/// rule; on failure the flashes are exactly `confirm_errors`, the
/// disagreement first.  The confirmation field itself stays in the form.
pub fn extract_confirm_password(form: &mut Form) -> (r: Result<String, Vec<Flash>>)
    ensures
        final(form).password is None,
        final(form).username == old(form).username,
        final(form).confirm_password == old(form).confirm_password,
        r is Ok <==> confirm_errors(
            opt_view(old(form).password),
            opt_view(old(form).confirm_password),
        ).len() == 0,
        r is Ok ==> old(form).password == Some(r->Ok_0),
        r is Err ==> r->Err_0@ == confirm_errors(
            opt_view(old(form).password),
            opt_view(old(form).confirm_password),
        ),
{
    let ghost p = opt_view(old(form).password);
    let ghost c = opt_view(old(form).confirm_password);
    let mut errors: Vec<Flash> = Vec::new();
    if !opt_string_eq(&form.password, &form.confirm_password) {
        errors.push(Flash::PasswordsDiffer);
    }
    match extract_password(form) {
        Ok(ok) => {
            if errors.len() == 0 {
                proof {
                    assert(confirm_errors(p, c).len() == 0);
                }
                Ok(ok)
            } else {
                proof {
                    assert(errors@ =~= confirm_errors(p, c));
                }
                Err(errors)
            }
        },
        Err(err) => {
            append_flashes(&mut errors, err);
            proof {
                assert(errors@ =~= confirm_errors(p, c));
            }
            Err(errors)
        },
    }
}

} // verus!
