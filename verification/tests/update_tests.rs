use ee2e_chat::update::{self, BinDir, CommandReport};

fn dir(shown: &str, name: Option<&str>, parent: Option<&str>) -> BinDir {
    BinDir {
        shown: shown.to_string(),
        name: name.map(|n| n.as_bytes().to_vec()),
        parent: parent.map(|p| p.as_bytes().to_vec()),
    }
}

#[test]
fn an_installed_copy_has_a_prefix() {
    let bin = dir("/home/sue/.local/bin", Some("bin"), Some("/home/sue/.local"));
    assert_eq!(
        update::prefix_for("/home/sue/.local/bin/chat", Some(&bin)),
        Ok(b"/home/sue/.local".to_vec())
    );
}

#[test]
fn a_copy_that_was_built_is_refused() {
    let target = dir("/src/target/release", Some("release"), Some("/src/target"));
    let why = update::prefix_for("/src/target/release/chat", Some(&target)).unwrap_err();
    assert_eq!(
        why,
        "this copy is not in a bin directory (/src/target/release), so it was probably built \
         rather than installed.\n\nUpdate it with `git pull && cargo build --release`, \
         or install it properly with install.sh."
    );
    let root = dir("/", None, None);
    assert!(update::prefix_for("/chat", Some(&root)).is_err());
}

#[test]
fn a_copy_without_a_place_is_refused() {
    assert_eq!(
        update::prefix_for("chat", None),
        Err("chat has no parent directory".to_string())
    );
    let bare = dir("bin", Some("bin"), None);
    assert_eq!(
        update::prefix_for("bin/chat", Some(&bare)),
        Err("could not work out a prefix from bin".to_string())
    );
}

#[test]
fn each_step_says_what_went_wrong() {
    assert_eq!(update::after_clone(CommandReport::Ran { success: true }), Ok(()));
    assert_eq!(
        update::after_clone(CommandReport::NotFound("x".to_string())),
        Err("git is needed to update, and is not installed".to_string())
    );
    assert_eq!(
        update::after_clone(CommandReport::NotRun("x".to_string())),
        Err("could not run git: x".to_string())
    );
    assert_eq!(
        update::after_clone(CommandReport::Ran { success: false }),
        Err("could not clone https://github.com/tjommilaskus/ee2e-chat.git".to_string())
    );
    assert_eq!(update::after_install(Some(CommandReport::Ran { success: true })), Ok(()));
    assert_eq!(
        update::after_install(None),
        Err("the repository has no install.sh; update it by hand".to_string())
    );
    assert_eq!(
        update::after_install(Some(CommandReport::NotFound("x".to_string()))),
        Err("could not run the installer: x".to_string())
    );
    assert_eq!(
        update::after_install(Some(CommandReport::NotRun("y".to_string()))),
        Err("could not run the installer: y".to_string())
    );
    assert_eq!(
        update::after_install(Some(CommandReport::Ran { success: false })),
        Err("the update failed; your existing copy is untouched".to_string())
    );
}

#[test]
fn an_update_has_to_have_replaced_something() {
    assert_eq!(
        update::conclude("/p/bin/chat", "/p/bin", false, Some("chat 2\n")),
        Err(
            "the installer ran, but /p/bin/chat was not replaced.\n\nIt may have installed under \
             a different name; check /p/bin and remove anything stale."
                .to_string()
        )
    );
    assert_eq!(
        update::conclude("/p/bin/chat", "/p/bin", true, Some("chat 2\n")),
        Ok("now running chat 2\n".to_string())
    );
    assert_eq!(
        update::conclude("/p/bin/chat", "/p/bin", true, None),
        Ok("updated, but could not read the new version back\n".to_string())
    );
    assert_eq!(
        update::opening("/p/bin/chat", "0.1.0"),
        "installed at /p/bin/chat\ncurrent version 0.1.0\n\nfetching \
         https://github.com/tjommilaskus/ee2e-chat.git\n"
    );
}
