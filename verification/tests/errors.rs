use yuque_ssg::error::Error;
use yuque_ssg::retry::{
    after_attempt, before_attempt, choose_package_manager, metadata_retry, CommandStep,
};

#[test]
fn every_error_shows_its_text() {
    let text = |e: Error| e.message();
    assert_eq!(text(Error::ConfigNotFound), "Can not find `config.yml` in current directory");
    assert_eq!(text(Error::CantParse("x".into())), "Can not parse `config.yml` due to x");
    assert_eq!(text(Error::MissingFields("title".into())), "Missing required value: title");
    assert_eq!(text(Error::Io("x".into())), "Io Error: x");
    assert_eq!(text(Error::MissingEnv("git".into())), "missing required environment: git");
    assert_eq!(text(Error::CantInstallDependency), "Can not install the dependencies");
    assert_eq!(text(Error::Yuque("x".into())), "Yuque Client Error: x");
    assert_eq!(text(Error::Internal("x".into())), "Internal Error: x");
    assert_eq!(text(Error::InvalidSchema("x".into())), "Invalid Schema: x");
    assert_eq!(text(Error::InvalidBuildCommand("make".into())), "Invalid Build Command: make.");
    assert_eq!(text(Error::Build("npm run x".into())), "Run command `npm run x` failed.");
    assert_eq!(text(Error::Reqwest("x".into())), "Reqwest Error: x");
    assert_eq!(text(Error::InvalidUrl("x".into())), "Invalid Url: x");
    assert_eq!(text(Error::Image("x".into())), "Image Error: x");
    assert_eq!(text(Error::CantFetchTheme), "Can not fetch the theme repo");
}

#[test]
fn an_error_is_copied_whole() {
    for e in [Error::ConfigNotFound, Error::Image("x".into()), Error::Build(String::new())] {
        assert_eq!(e.clone(), e);
    }
}

#[test]
fn a_command_is_run_once_more_than_it_may_be_retried() {
    assert_eq!(before_attempt(0, 0), CommandStep::Run);
    assert_eq!(before_attempt(1, 0), CommandStep::Finish(false));
    assert_eq!(before_attempt(3, 3), CommandStep::Run);
    assert_eq!(before_attempt(4, 3), CommandStep::Finish(false));
    let mut retry = 0;
    let mut runs = 0;
    while before_attempt(retry, 3) == CommandStep::Run {
        runs += 1;
        match after_attempt(retry, false) {
            CommandStep::RetryAfter { seconds, retry: next } => {
                assert_eq!(seconds, 3);
                assert_eq!(next, retry + 1);
                retry = next;
            }
            other => panic!("no retry: {:?}", other),
        }
    }
    assert_eq!(runs, 4);
}

#[test]
fn a_success_ends_the_attempts() {
    assert_eq!(after_attempt(0, true), CommandStep::Finish(true));
    assert_eq!(after_attempt(255, true), CommandStep::Finish(true));
    assert_eq!(after_attempt(255, false), CommandStep::Finish(false));
    assert_eq!(after_attempt(254, false), CommandStep::RetryAfter { seconds: 3, retry: 255 });
}

#[test]
fn the_description_of_a_namespace_is_fetched_twice_at_most() {
    assert_eq!(metadata_retry(1), Some(3));
    assert_eq!(metadata_retry(2), None);
    assert_eq!(metadata_retry(0), None);
}

#[test]
fn the_first_package_manager_that_is_there_installs() {
    assert_eq!(choose_package_manager(true, true, true), Ok("pnpm"));
    assert_eq!(choose_package_manager(false, true, true), Ok("yarn"));
    assert_eq!(choose_package_manager(false, false, true), Ok("npm"));
    assert_eq!(choose_package_manager(true, false, false), Ok("pnpm"));
    assert_eq!(choose_package_manager(false, false, false), Err(Error::MissingEnv("npm".into())));
}
