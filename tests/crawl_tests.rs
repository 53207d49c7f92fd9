use kaloston::crawl::{CrawlState, Feedback, PageOutcome};

fn outcomes(order: &[usize]) -> Vec<PageOutcome> {
    order
        .iter()
        .map(|i| match i % 3 {
            0 => PageOutcome::Article(format!("article {i}")),
            1 => PageOutcome::NoArticle,
            _ => PageOutcome::FetchFailed,
        })
        .collect()
}

#[test]
fn follow_all_only_for_articles() {
    let mut st = CrawlState::new();
    assert_eq!(st.record_visit(PageOutcome::Article("body".to_string())), (1, Feedback::FollowAll));
    assert_eq!(st.record_visit(PageOutcome::NoArticle), (2, Feedback::FollowNone));
    assert_eq!(st.record_visit(PageOutcome::FetchFailed), (3, Feedback::FollowNone));
    assert_eq!(st.visited(), 3);
    assert_eq!(st.pages(), &vec!["body".to_string()]);
}

#[test]
fn visits_counted_whatever_the_order() {
    let mut a = CrawlState::new();
    a.record_all(outcomes(&[0, 1, 2, 3, 4, 5, 6]));
    let mut b = CrawlState::new();
    b.record_all(outcomes(&[6, 2, 4, 0, 5, 3, 1]));
    assert_eq!(a.visited(), 7);
    assert_eq!(b.visited(), 7);
    let mut pa = a.pages().clone();
    let mut pb = b.pages().clone();
    pa.sort();
    pb.sort();
    assert_eq!(pa, pb);
    assert_eq!(pa.len(), 3);
}

#[test]
fn concurrent_visits_all_counted() {
    let rt = tokio::runtime::Builder::new_multi_thread().worker_threads(4).build().unwrap();
    let n = rt.block_on(async {
        let st = std::sync::Arc::new(tokio::sync::Mutex::new(CrawlState::new()));
        let mut tasks = Vec::new();
        for i in 0..200u32 {
            let st = std::sync::Arc::clone(&st);
            tasks.push(tokio::spawn(async move {
                let o = if i % 2 == 0 { PageOutcome::NoArticle } else { PageOutcome::FetchFailed };
                st.lock().await.record_visit(o);
            }));
        }
        for t in tasks {
            t.await.unwrap();
        }
        let v = st.lock().await.visited();
        v
    });
    assert_eq!(n, 200);
}
