use rdtool::api::{api_url, file_name_from_link, files_param, successes};

#[test]
fn urls_of_api_paths() {
    assert_eq!(api_url("/user"), "https://api.real-debrid.com/rest/1.0/user");
    assert_eq!(api_url("/torrents/info/ABC"), "https://api.real-debrid.com/rest/1.0/torrents/info/ABC");
}

#[test]
fn file_selection_parameter() {
    assert_eq!(files_param(&vec![]), "all");
    assert_eq!(files_param(&vec![3]), "3");
    assert_eq!(files_param(&vec![1, 22, 0, 4294967295]), "1,22,0,4294967295");
}

#[test]
fn file_names_of_links() {
    assert_eq!(file_name_from_link("https://host/d/ABC/movie.mkv"), "movie.mkv");
    assert_eq!(file_name_from_link("https://host/d/"), "");
    assert_eq!(file_name_from_link("plain"), "plain");
}

#[test]
fn failed_links_are_dropped() {
    let r: Vec<Result<u32, String>> = vec![Ok(1), Err("x".into()), Ok(3), Err("y".into())];
    assert_eq!(successes(r), vec![1, 3]);
    assert_eq!(successes::<u32>(vec![]), Vec::<u32>::new());
}
