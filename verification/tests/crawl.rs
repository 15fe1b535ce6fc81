use toygrep::crawl::{
    crawl_step, crawl_tree, worker_step, CrawlStep, Crawler, MemoryFile, Received, TreeNode,
    WalkerMessage, WorkerStep,
};

fn file(path: &str) -> TreeNode {
    TreeNode::File(MemoryFile {
        path: path.to_string(),
        bytes: path.as_bytes().to_vec(),
    })
}

fn paths(tree: &TreeNode) -> Vec<String> {
    let report = crawl_tree(tree);
    assert_eq!(0, report.pending);
    let mut found: Vec<String> = report.files.iter().map(|f| f.path.clone()).collect();
    found.sort();
    found
}

#[test]
fn an_empty_directory_ends_at_once() {
    let tree = TreeNode::Directory(Vec::new());
    let report = crawl_tree(&tree);
    assert!(report.files.is_empty());
    assert_eq!(0, report.pending);
    assert_eq!(1, report.steps);
    assert_eq!(Some(1), tree.count());
}

#[test]
fn a_single_file_is_visited() {
    let tree = file("only");
    let report = crawl_tree(&tree);
    assert_eq!(1, report.files.len());
    assert_eq!("only", report.files[0].path);
    assert_eq!(b"only".to_vec(), report.files[0].bytes);
    assert_eq!(0, report.pending);
    assert_eq!(1, report.steps);
}

#[test]
fn an_unreadable_root_gives_nothing() {
    let tree = TreeNode::Unreadable;
    let report = crawl_tree(&tree);
    assert!(report.files.is_empty());
    assert_eq!(0, report.pending);
    assert_eq!(1, report.steps);
}

#[test]
fn every_file_is_visited_exactly_once() {
    let tree = TreeNode::Directory(vec![
        file("a"),
        TreeNode::Directory(vec![
            file("b/c"),
            TreeNode::Unreadable,
            TreeNode::Directory(Vec::new()),
            TreeNode::Directory(vec![file("b/d/e"), file("b/d/f")]),
        ]),
        TreeNode::Unreadable,
        file("g"),
    ]);
    assert_eq!(vec!["a", "b/c", "b/d/e", "b/d/f", "g"], paths(&tree));
    assert_eq!(11, crawl_tree(&tree).steps);
    assert_eq!(Some(11), tree.count());
}

#[test]
fn directories_are_visited_level_by_level() {
    let tree = TreeNode::Directory(vec![
        TreeNode::Directory(vec![file("deep")]),
        file("shallow"),
    ]);
    let report = crawl_tree(&tree);
    let order: Vec<&str> = report.files.iter().map(|f| f.path.as_str()).collect();
    assert_eq!(vec!["shallow", "deep"], order);
}

#[test]
fn a_file_that_occurs_twice_is_visited_twice() {
    let tree = TreeNode::Directory(vec![file("same"), file("same")]);
    assert_eq!(vec!["same", "same"], paths(&tree));
}

#[test]
fn the_pending_count_follows_the_work() {
    let mut crawler = Crawler::new("root");
    assert_eq!(1, crawler.pending_count());
    assert!(!crawler.is_closed());

    assert_eq!(Some("root"), crawler.take());
    assert_eq!(1, crawler.pending_count());
    assert_eq!(None, crawler.take());
    assert!(!crawler.is_closed());

    assert!(!crawler.finish_directory(vec!["a", "dir", "b"]));
    assert_eq!(3, crawler.pending_count());

    assert_eq!(Some("a"), crawler.take());
    assert_eq!(Some("dir"), crawler.take());
    assert!(!crawler.finish_item());
    assert_eq!(2, crawler.pending_count());
    assert!(!crawler.finish_directory(Vec::new()));
    assert_eq!(1, crawler.pending_count());

    assert_eq!(Some("b"), crawler.take());
    assert!(!crawler.is_closed());
    assert!(crawler.finish_item());
    assert_eq!(0, crawler.pending_count());
    assert!(crawler.is_closed());
    assert_eq!(None, crawler.take());
}

#[test]
fn an_empty_queue_alone_does_not_end_the_crawl() {
    let mut crawler = Crawler::new(1u32);
    assert_eq!(Some(1), crawler.take());
    assert_eq!(None, crawler.take());
    assert!(!crawler.is_closed());
    assert!(!crawler.finish_directory(vec![2]));
    assert_eq!(Some(2), crawler.take());
    assert!(crawler.finish_item());
}

#[test]
fn a_crawl_worker_visits_waits_or_stops() {
    let mut crawler = Crawler::new("root");
    assert_eq!(CrawlStep::Visit("root"), crawl_step(&mut crawler));
    assert_eq!(1, crawler.pending_count());

    // Nothing waits, but the root is still in flight.
    assert_eq!(CrawlStep::Wait, crawl_step(&mut crawler));
    assert_eq!(CrawlStep::Wait, crawl_step(&mut crawler));
    assert_eq!(1, crawler.pending_count());

    assert!(!crawler.finish_directory(vec!["a", "b"]));
    assert_eq!(CrawlStep::Visit("a"), crawl_step(&mut crawler));
    assert_eq!(CrawlStep::Visit("b"), crawl_step(&mut crawler));
    assert_eq!(CrawlStep::Wait, crawl_step(&mut crawler));
    assert!(!crawler.finish_item());
    assert_eq!(CrawlStep::Wait, crawl_step(&mut crawler));
    assert!(crawler.finish_item());

    assert_eq!(CrawlStep::Stop, crawl_step(&mut crawler));
    assert_eq!(CrawlStep::Stop, crawl_step(&mut crawler));
    assert_eq!(0, crawler.pending_count());
}

#[test]
fn a_worker_stops_or_works() {
    assert_eq!(WorkerStep::Stop, worker_step(Received::Disconnected));
    assert_eq!(
        WorkerStep::Stop,
        worker_step(Received::Message(WalkerMessage::Quit))
    );
    assert_eq!(
        WorkerStep::Handle("a/file".to_string()),
        worker_step(Received::Message(WalkerMessage::File("a/file".to_string())))
    );
}
