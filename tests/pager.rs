use shovel::pager::Pager;

fn service(all: &[Vec<u8>], start: Option<Vec<u8>>, count: usize, echo: bool) -> Vec<Vec<u8>> {
    let from = match &start {
        None => 0,
        Some(k) => all.iter().position(|x| x == k).map(|i| i + 1).unwrap_or(all.len()),
    };
    let end = (from + count).min(all.len());
    let mut page: Vec<Vec<u8>> = all[from..end].to_vec();
    if echo {
        if let Some(k) = start {
            page.insert(0, k);
        }
    }
    page
}

fn drain(all: &[Vec<u8>], page_size: usize, echo: bool) -> (Vec<Vec<u8>>, usize) {
    let mut pager = Pager::new(page_size);
    let mut out = Vec::new();
    let mut requests = 0;
    while let Some((start, count)) = pager.next_request() {
        requests += 1;
        assert!(requests <= all.len() + 1);
        out.extend(pager.on_page(service(all, start, count, echo)));
    }
    (out, requests)
}

fn keys(m: usize) -> Vec<Vec<u8>> {
    (0..m).map(|i| vec![0x26, 0xaa, i as u8, (i * 3) as u8]).collect()
}

#[test]
fn pages_smaller_than_map() {
    let all = keys(5);
    let (out, requests) = drain(&all, 2, false);
    assert_eq!(out, all);
    assert_eq!(requests, 4);
}

#[test]
fn page_equal_to_map() {
    let all = keys(5);
    let (out, requests) = drain(&all, 5, false);
    assert_eq!(out, all);
    assert_eq!(requests, 2);
}

#[test]
fn page_larger_than_map() {
    let all = keys(5);
    let (out, requests) = drain(&all, 7, false);
    assert_eq!(out, all);
    assert_eq!(requests, 2);
}

#[test]
fn empty_map_takes_one_request() {
    let (out, requests) = drain(&[], 3, false);
    assert!(out.is_empty());
    assert_eq!(requests, 1);
}

#[test]
fn repeated_start_key_is_dropped() {
    let all = keys(6);
    let (out, _) = drain(&all, 4, true);
    assert_eq!(out, all);
}

#[test]
fn request_starts_after_last_key() {
    let all = keys(3);
    let mut pager = Pager::new(2);
    assert_eq!(pager.next_request(), Some((None, 2)));
    let got = pager.on_page(all[0..2].to_vec());
    assert_eq!(got, all[0..2].to_vec());
    assert_eq!(pager.next_request(), Some((Some(all[1].clone()), 2)));
    assert!(pager.on_page(vec![]).is_empty());
    assert_eq!(pager.next_request(), None);
}
