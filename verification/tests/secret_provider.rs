use oo7_keyring::file::error::Error;
use oo7_keyring::io_error::IoErrorKind;
use oo7_keyring::secret::Secret;
use oo7_keyring::server::secret_provider::{prompt_answered, GnomeSecretProvider, PromptRole};

type Provider = GnomeSecretProvider<&'static str, &'static str, u32>;

fn path(n: u32) -> String {
    format!("/org/freedesktop/secrets/prompt/p{n}")
}

#[test]
fn providers_are_made_with_or_without_a_collection() {
    let provider = Provider::new("service", "collection");
    assert_eq!(provider.service, "service");
    assert_eq!(provider.collection, Some("collection"));
    assert_eq!(provider.label, "");

    let mut provider = Provider::new_deferred("service", "Login");
    assert_eq!(provider.collection, None);
    assert_eq!(provider.label, "Login");
    provider.set_collection("later");
    assert_eq!(provider.collection, Some("later"));
    assert_eq!(provider.label, "Login");
}

#[test]
fn prompts_are_made_with_the_label_and_the_collection() {
    let mut provider = Provider::new_deferred("service", "Login");
    let request = provider.prompt_request("Work");
    assert!(matches!(request.role, PromptRole::Unlock));
    assert_eq!(request.label, "Work");
    assert_eq!(request.collection, None);
    provider.set_collection("later");
    assert_eq!(provider.prompt_request("Work").collection, Some(&"later"));
}

#[test]
fn a_prompt_is_awaited_once() {
    let mut provider = Provider::new_deferred("service", "Login");
    assert!(matches!(provider.create_prompt(path(0), 10, Ok(())), Ok(p) if p == path(0)));
    assert!(matches!(provider.create_prompt(path(1), 11, Ok(())), Ok(p) if p == path(1)));
    assert!(matches!(provider.await_prompt(&path(1)), Ok(11)));
    match provider.await_prompt(&path(1)) {
        Err(Error::Io(e)) => {
            assert_eq!(e.kind, IoErrorKind::NotFound);
            assert_eq!(
                e.message,
                "No pending prompt found for path: /org/freedesktop/secrets/prompt/p1"
            );
        }
        _ => panic!("the prompt was awaited before"),
    }
    assert!(matches!(provider.await_prompt(&path(0)), Ok(10)));
}

#[test]
fn a_later_prompt_takes_the_place_of_an_earlier_one() {
    let mut provider = Provider::new_deferred("service", "Login");
    assert!(provider.create_prompt(path(0), 10, Ok(())).is_ok());
    assert!(provider.create_prompt(path(0), 12, Ok(())).is_ok());
    assert!(matches!(provider.await_prompt(&path(0)), Ok(12)));
    assert!(provider.await_prompt(&path(0)).is_err());
}

#[test]
fn a_prompt_that_is_not_exposed_is_not_awaited() {
    let mut provider = Provider::new_deferred("service", "Login");
    match provider.create_prompt(path(0), 10, Err("no bus".to_string())) {
        Err(Error::Io(e)) => {
            assert_eq!(e.kind, IoErrorKind::Other);
            assert_eq!(e.message, "Failed to expose prompt on D-Bus: no bus");
        }
        _ => panic!("the prompt is not on the bus"),
    }
    assert!(provider.await_prompt(&path(0)).is_err());
}

#[test]
fn answers_to_prompts() {
    let Ok(secret) = prompt_answered(Some(Ok(Secret::text("password")))) else { panic!() };
    assert_eq!(secret.bytes, b"password");
    assert!(matches!(prompt_answered(None), Err(Error::PromptDismissed)));
    assert!(matches!(
        prompt_answered(Some(Err(Error::IncorrectSecret))),
        Err(Error::IncorrectSecret)
    ));
}
