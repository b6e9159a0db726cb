use scorehub::error::Error;
use scorehub::session::{Layout, Session};
use scorehub::user::{
    extract_confirm_password, extract_password, extract_username, signin_form, signup_form,
    Flash, Form,
};

fn form(username: Option<&str>, password: Option<&str>, confirm: Option<&str>) -> Form {
    Form {
        username: username.map(String::from),
        password: password.map(String::from),
        confirm_password: confirm.map(String::from),
    }
}

#[test]
fn valid_username_is_extracted_and_removed() {
    let mut f = form(Some("alice_01"), Some("secret"), None);
    assert_eq!(extract_username(&mut f), Ok(String::from("alice_01")));
    assert!(f.username.is_none());
    assert_eq!(f.password.as_deref(), Some("secret"));
}

#[test]
fn username_length_violations_flash() {
    let mut f = form(Some("a"), None, None);
    assert_eq!(extract_username(&mut f), Err(vec![Flash::UsernameInvalidLength]));
    let mut f = form(Some("abcdefghijklmnopq"), None, None);
    assert_eq!(extract_username(&mut f), Err(vec![Flash::UsernameInvalidLength]));
    let mut f = form(None, None, None);
    assert_eq!(extract_username(&mut f), Err(vec![Flash::UsernameInvalidLength]));
}

#[test]
fn username_character_violations_flash() {
    let mut f = form(Some("al ice"), None, None);
    assert_eq!(extract_username(&mut f), Err(vec![Flash::UsernameInvalidChars]));
    let mut f = form(Some("älice"), None, None);
    assert_eq!(extract_username(&mut f), Err(vec![Flash::UsernameInvalidChars]));
    // Both rules broken: the length flash comes first.
    let mut f = form(Some("!"), None, None);
    assert_eq!(
        extract_username(&mut f),
        Err(vec![Flash::UsernameInvalidLength, Flash::UsernameInvalidChars])
    );
}

#[test]
fn length_rules_sit_exactly_on_their_bounds() {
    let mut f = form(Some("ab"), None, None);
    assert!(extract_username(&mut f).is_ok());
    let mut f = form(Some("abcdefghijklmnop"), None, None);
    assert!(extract_username(&mut f).is_ok());
    let mut f = form(None, Some("a".repeat(32).as_str()), None);
    assert!(extract_password(&mut f).is_ok());
    let mut f = form(None, Some("a".repeat(33).as_str()), None);
    assert_eq!(extract_password(&mut f), Err(vec![Flash::PasswordInvalidLength]));
}

#[test]
fn lengths_count_characters_not_bytes() {
    // Eight characters, more than eight bytes: still a valid password.
    let mut f = form(None, Some("pässwört"), None);
    assert!(extract_password(&mut f).is_ok());
}

#[test]
fn line_breaks_fail_the_length_rule() {
    // The length rule never matches across a line break, so a username
    // containing one fails it even at a fitting character count.
    let mut f = form(Some("ab\ncd"), None, None);
    assert_eq!(
        extract_username(&mut f),
        Err(vec![Flash::UsernameInvalidLength, Flash::UsernameInvalidChars])
    );
    let mut f = form(None, Some("abc\ndef"), None);
    assert_eq!(extract_password(&mut f), Err(vec![Flash::PasswordInvalidLength]));
}

#[test]
fn password_length_rule() {
    let mut f = form(None, Some("abcd"), None);
    assert_eq!(extract_password(&mut f), Ok(String::from("abcd")));
    assert!(f.password.is_none());
    let mut f = form(None, Some("abc"), None);
    assert_eq!(extract_password(&mut f), Err(vec![Flash::PasswordInvalidLength]));
    let mut f = form(None, None, None);
    assert_eq!(extract_password(&mut f), Err(vec![Flash::PasswordInvalidLength]));
}

#[test]
fn confirm_password_agreement_comes_first() {
    let mut f = form(None, Some("abcdef"), Some("abcdef"));
    assert_eq!(extract_confirm_password(&mut f), Ok(String::from("abcdef")));
    assert_eq!(f.confirm_password.as_deref(), Some("abcdef"));

    let mut f = form(None, Some("abcdef"), Some("other!"));
    assert_eq!(extract_confirm_password(&mut f), Err(vec![Flash::PasswordsDiffer]));

    // Disagreement and a short password: the disagreement flashes first.
    let mut f = form(None, Some("abc"), Some("abcdef"));
    assert_eq!(
        extract_confirm_password(&mut f),
        Err(vec![Flash::PasswordsDiffer, Flash::PasswordInvalidLength])
    );
}

#[test]
fn whole_forms_collect_all_flashes_username_first() {
    let mut f = form(Some("alice"), Some("secret"), None);
    let user = signin_form(&mut f).unwrap();
    assert_eq!(user.username, "alice");
    assert_eq!(user.password, "secret");

    let mut f = form(Some("!"), Some("abc"), None);
    assert_eq!(
        signin_form(&mut f),
        Err(vec![
            Flash::UsernameInvalidLength,
            Flash::UsernameInvalidChars,
            Flash::PasswordInvalidLength,
        ])
    );

    let mut f = form(Some("alice"), Some("abcdef"), Some("abcdef"));
    assert!(signup_form(&mut f).is_ok());

    let mut f = form(Some("a"), Some("abc"), Some("abcd"));
    assert_eq!(
        signup_form(&mut f),
        Err(vec![
            Flash::UsernameInvalidLength,
            Flash::PasswordsDiffer,
            Flash::PasswordInvalidLength,
        ])
    );
}

#[test]
fn flash_messages_render_their_texts() {
    assert_eq!(
        Flash::UsernameTaken.message(),
        "Dieser Benutzername ist bereits vergeben."
    );
    assert_eq!(
        Flash::PasswordsDiffer.message(),
        "Die Passwörter stimmen nicht überein."
    );
}

#[test]
fn session_identity_gates_the_adapter() {
    let signed_in = Session {
        layout: Layout { signed_in: true },
        user_id: Some(3),
        flashes: Vec::new(),
    };
    assert_eq!(signed_in.get_user_id(), Ok(3));
    assert!(signed_in.get_layout().signed_in);

    let anonymous = Session {
        layout: Layout { signed_in: false },
        user_id: None,
        flashes: Vec::new(),
    };
    assert_eq!(anonymous.get_user_id(), Err(Error::Unauthorized));
}

#[test]
fn flashes_accumulate_in_order_and_drain() {
    let mut session = Session {
        layout: Layout { signed_in: false },
        user_id: None,
        flashes: Vec::new(),
    };
    let kept: Option<String> = session.add_flashes(Ok(String::from("value")));
    assert_eq!(kept.as_deref(), Some("value"));
    let dropped: Option<String> =
        session.add_flashes(Err(vec![Flash::UsernameInvalidLength, Flash::UsernameTaken]));
    assert!(dropped.is_none());
    let flashes = session.get_flashes();
    assert_eq!(
        flashes,
        vec![
            String::from("Der Benutzername muss zwischen 2 und 16 Zeichen lang sein."),
            String::from("Dieser Benutzername ist bereits vergeben."),
        ]
    );
    assert!(session.get_flashes().is_empty());
}
