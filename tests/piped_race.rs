use tunes_core::piped::{
    average_ping, get_instances, get_selected_instance, select_best_instance,
    select_best_piped_instance, instance_for_search, InstanceSelection, PipedInstance,
};

fn inst(url: &str) -> PipedInstance {
    PipedInstance { api_url: url.to_string(), name: url.to_string(), country: vec![] }
}

#[test]
fn catalog_has_fourteen_mirrors() {
    let all = get_instances();
    assert_eq!(all.len(), 14);
    assert_eq!(all[0].api_url, "https://api.piped.privacydev.net");
    assert_eq!(all[0].name, "privacydev.net");
    assert_eq!(all[0].country, vec!["france".to_string()]);
    assert_eq!(all[13].api_url, "https://piapi.ggtyler.dev");
}

#[test]
fn average_of_successful_pings() {
    assert_eq!(average_ping(&vec![Some(100), None, Some(201), None, Some(300)]), Some(200));
    assert_eq!(average_ping(&vec![None, None]), None);
    assert_eq!(average_ping(&vec![]), None);
    assert_eq!(average_ping(&vec![Some(u64::MAX), Some(u64::MAX)]), Some(u64::MAX));
}

#[test]
fn fastest_mirror_wins() {
    let instances = vec![inst("a"), inst("b"), inst("c")];
    assert_eq!(select_best_instance(&instances, &vec![Some(300), None, Some(120)]), "c");
}

#[test]
fn tie_goes_to_first_mirror() {
    let instances = vec![inst("a"), inst("b"), inst("c")];
    assert_eq!(select_best_instance(&instances, &vec![None, Some(50), Some(50)]), "b");
}

#[test]
fn no_answer_falls_back() {
    let instances = vec![inst("a"), inst("b")];
    assert_eq!(select_best_instance(&instances, &vec![None, None]), "https://pipedapi.wireway.ch");
}

#[test]
fn probing_round_sets_selection() {
    let mut sel = InstanceSelection::new();
    assert_eq!(get_selected_instance(&sel), None);
    let instances = vec![inst("a"), inst("b")];
    let samples = vec![vec![Some(90), Some(110)], vec![Some(80), None, Some(130)]];
    select_best_piped_instance(&mut sel, &instances, &samples);
    assert_eq!(get_selected_instance(&sel), Some("a".to_string()));
    select_best_piped_instance(&mut sel, &instances, &vec![vec![None], vec![None]]);
    assert_eq!(get_selected_instance(&sel), Some("https://pipedapi.wireway.ch".to_string()));
}

#[test]
fn search_needs_a_selected_mirror() {
    let mut sel = InstanceSelection::new();
    assert_eq!(instance_for_search(&sel), Err(tunes_core::search::SearchError::NoInstance));
    select_best_piped_instance(&mut sel, &vec![inst("a")], &vec![vec![Some(10)]]);
    assert_eq!(instance_for_search(&sel), Ok("a".to_string()));
}

#[test]
fn unanswered_mirror_is_not_selected() {
    let instances = vec![inst("a"), inst("b")];
    assert_eq!(select_best_instance(&instances, &vec![None, Some(4000)]), "b");
}
