use webscraping::keyword_search::{search, Action, IndexCommand, SearchCli};

#[test]
fn index_action_ingests_into_the_index() {
    let cli = SearchCli {
        keyword_match: None,
        action: Action::Index { path_to_file: String::from("songs.json") },
    };
    match search(&cli) {
        IndexCommand::Ingest { index_path, json_file } => {
            assert_eq!(index_path, "/Users/max/Code/Music/backend/musixmatch/");
            assert_eq!(json_file, "songs.json");
        }
        IndexCommand::Query { .. } => panic!("expected an ingest"),
    }
}

#[test]
fn search_action_queries_the_index() {
    let cli = SearchCli {
        keyword_match: Some(String::from("ignored")),
        action: Action::Search { keyword: String::from("champagne") },
    };
    match search(&cli) {
        IndexCommand::Query { index_path, query } => {
            assert_eq!(index_path, "/Users/max/Code/Music/backend/musixmatch/");
            assert_eq!(query, "champagne");
        }
        IndexCommand::Ingest { .. } => panic!("expected a query"),
    }
}
