use dashboard::web::{
    calc_grid_span, find_cookie, get_cookies, prepend_point, Icon, QueryArray, RedirectType, HISTORY_LEN,
};

#[test]
fn query_array_round_trip() {
    let items = vec!["37.5".to_string(), "30".to_string(), "0.01".to_string()];
    let q = QueryArray::from_iter(&items);
    assert_eq!(q.as_str(), "37.5,30,0.01,");
    assert_eq!(q.to_iter(), vec!["37.5", "30", "0.01", ""]);
}

#[test]
fn query_array_edges() {
    assert_eq!(QueryArray::from_iter(&Vec::new()).as_str(), "");
    assert_eq!(QueryArray::default().to_iter(), vec![""]);
    assert_eq!(QueryArray::from_text("a,,b".to_string()).to_iter(), vec!["a", "", "b"]);
    assert_eq!(QueryArray::from_text("ºC,x".to_string()).to_iter(), vec!["ºC", "x"]);
}

#[test]
fn history_keeps_newest_twenty() {
    let old: Vec<u32> = (0..25).collect();
    let r = prepend_point(99, old);
    assert_eq!(r.len(), HISTORY_LEN);
    assert_eq!(r[0], 99);
    assert_eq!(r[1], 0);
    assert_eq!(r[19], 18);
    assert_eq!(prepend_point(1, vec![2, 3]), vec![1, 2, 3]);
    assert_eq!(prepend_point(1, Vec::new()), vec![1]);
}

#[test]
fn grid_span() {
    assert_eq!(calc_grid_span(0), 1);
    assert_eq!(calc_grid_span(1), 2);
    assert_eq!(calc_grid_span(4), 3);
    assert_eq!(calc_grid_span(5), 4);
    assert_eq!(calc_grid_span(usize::MAX), usize::MAX / 2 + 2);
}

#[test]
fn icon_builder() {
    let i = Icon::new("fa6-solid-bars");
    assert_eq!(i.side(), 24);
    let j = i.size(48);
    assert_eq!(j.side(), 48);
    assert_eq!(j.name(), "fa6-solid-bars");
}

#[test]
fn redirect_status() {
    assert_eq!(RedirectType::Permanent.status(), 308);
    assert_eq!(RedirectType::SeeOther.status(), 303);
}

fn pairs(v: &[(&str, &str)]) -> Vec<(String, String)> {
    v.iter().map(|(a, b)| (a.to_string(), b.to_string())).collect()
}

#[test]
fn cookie_header_parsing() {
    assert_eq!(
        get_cookies("backend=10.0.0.2; theme=dark"),
        pairs(&[("backend", "10.0.0.2"), ("theme", "dark")])
    );
    // split at the first '=' only; pieces without '=' are skipped
    assert_eq!(get_cookies("a=b=c; junk; d="), pairs(&[("a", "b=c"), ("d", "")]));
    // only "; " separates cookies
    assert_eq!(get_cookies("a=1;b=2"), pairs(&[("a", "1;b=2")]));
    assert_eq!(get_cookies(""), Vec::<(String, String)>::new());
}

#[test]
fn last_cookie_of_a_name_wins() {
    let c = get_cookies("backend=1.1.1.1; x=y; backend=::1");
    assert_eq!(find_cookie(&c, &"backend".to_string()), Some(2));
    assert_eq!(c[2].1, "::1");
    assert_eq!(find_cookie(&c, &"missing".to_string()), None);
}
