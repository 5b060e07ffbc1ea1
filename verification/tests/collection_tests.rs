use lazy_modman_cli::download::{DownloadDecision, DownloadRetry, MAX_DOWNLOAD_ATTEMPTS};
use lazy_modman_cli::modpack::Modpack;
use lazy_modman_cli::modpacks::{ModpackAutocomplete, Modpacks};

fn named(name: &str, loader: &str) -> Modpack {
    Modpack { name: name.to_string(), loader: loader.to_string(), mods: vec![], version: None }
}

fn packs() -> Modpacks {
    let mut m = Modpacks::new();
    m.fill(vec![Some(named("qol", "fabric")), None, Some(named("qol-extra", "quilt")), Some(named("qol", "forge"))]);
    m
}

#[test]
fn find_returns_first_with_name() {
    let m = packs();
    assert_eq!(m.find_by_name("qol".to_string()), Some(named("qol", "fabric")));
    assert_eq!(m.find_by_name("qol-extra".to_string()), Some(named("qol-extra", "quilt")));
    assert_eq!(m.find_by_name("nope".to_string()), None);
    assert_eq!(Modpacks::new().find_by_name("qol".to_string()), None);
}

#[test]
fn completion_offers_names_in_order() {
    let m = packs();
    let ac = m.gen_autocomplete();
    assert_eq!(ac.options, vec!["qol".to_string(), "qol-extra".to_string(), "qol".to_string()]);
    for name in ac.options.iter() {
        assert!(m.find_by_name(name.clone()).is_some());
    }
}

#[test]
fn suggestions_filter_by_substring() {
    let mut ac = ModpackAutocomplete {
        options: vec!["vanilla-plus".to_string(), "optimized".to_string(), "plus-shaders".to_string()],
    };
    assert_eq!(ac.get_suggestions("plus"), vec!["vanilla-plus".to_string(), "plus-shaders".to_string()]);
    assert_eq!(ac.get_suggestions("zzz"), Vec::<String>::new());
    assert_eq!(ac.get_suggestions(""), ac.options.clone());
}

#[test]
fn completion_uses_highlighted() {
    let mut ac = ModpackAutocomplete { options: vec!["a".to_string()] };
    assert_eq!(ac.get_completion("x", Some("abc".to_string())), Some("abc".to_string()));
    assert_eq!(ac.get_completion("x", None), None);
}

#[test]
fn retry_uses_cache_then_gives_up() {
    let mut r = DownloadRetry::new();
    assert_eq!(r.attempts(), 0);
    assert_eq!(r.next(true), DownloadDecision::UseCached);
    assert_eq!(r.attempts(), 0);
    for i in 0..MAX_DOWNLOAD_ATTEMPTS {
        assert_eq!(r.next(false), DownloadDecision::Download { retries_left: MAX_DOWNLOAD_ATTEMPTS - i });
    }
    assert_eq!(r.attempts(), 5);
    assert_eq!(r.next(true), DownloadDecision::GiveUp);
    assert_eq!(r.next(false), DownloadDecision::GiveUp);
}

#[test]
fn retry_finds_cache_after_download() {
    let mut r = DownloadRetry::new();
    assert_eq!(r.next(false), DownloadDecision::Download { retries_left: 5 });
    assert_eq!(r.next(true), DownloadDecision::UseCached);
}

#[test]
fn typing_more_narrows_suggestions() {
    let mut ac = ModpackAutocomplete {
        options: vec!["qol".to_string(), "qol-extra".to_string(), "extra".to_string()],
    };
    let short = ac.get_suggestions("qol");
    let long = ac.get_suggestions("qol-e");
    assert_eq!(short, vec!["qol".to_string(), "qol-extra".to_string()]);
    assert_eq!(long, vec!["qol-extra".to_string()]);
    assert!(long.iter().all(|s| short.contains(s)));
}
