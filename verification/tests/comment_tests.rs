use baram::crawler::comment::{
    build_comment_tree, clean_comment_content, convert_comment, convert_comments, parse_jsonp, Comment,
    CommentApiResponse, CommentClient, CommentPaging, CommentResult, CommentCount, PageInfo, RawComment,
};

#[test]
fn test_parse_jsonp_callback() {
    let jsonp = r#"_callback({"success": true, "code": "200"})"#;
    let json = parse_jsonp(jsonp).unwrap();
    assert_eq!(json, r#"{"success": true, "code": "200"}"#);
}

#[test]
fn test_parse_jsonp_jquery() {
    let jsonp = r#"jQuery123456({"data": "test"})"#;
    let json = parse_jsonp(jsonp).unwrap();
    assert_eq!(json, r#"{"data": "test"}"#);
}

#[test]
fn test_parse_jsonp_with_semicolon() {
    let jsonp = r#"callback({"value": 1});"#;
    let json = parse_jsonp(jsonp).unwrap();
    assert_eq!(json, r#"{"value": 1}"#);
}

#[test]
fn test_parse_jsonp_plain_json() {
    let json_str = r#"{"already": "json"}"#;
    let result = parse_jsonp(json_str).unwrap();
    assert_eq!(result, json_str);
}

#[test]
fn test_parse_jsonp_invalid() {
    let invalid = "not valid jsonp or json";
    assert!(parse_jsonp(invalid).is_err());
}

#[test]
fn parse_jsonp_trims_and_keeps_inner_spaces_before_paren() {
    assert_eq!(parse_jsonp("  cb ( [1, 2]  );  ").unwrap(), "[1, 2]  ");
    assert!(parse_jsonp("cb ( [1, 2] ) ;").is_err());
    assert_eq!(parse_jsonp("cb()").unwrap(), "");
    assert!(parse_jsonp("9cb({})").is_err());
    assert_eq!(parse_jsonp("cb({\n})").unwrap_err(), "Invalid JSONP format: unable to extract JSON content");
}

fn comment(id: &str, parent: Option<&str>, likes: i64, best: bool, created_at: i64) -> Comment {
    Comment {
        id: id.to_string(),
        parent_id: parent.map(|p| p.to_string()),
        content: format!("content {id}"),
        author: "A".to_string(),
        author_id: "a***".to_string(),
        created_at,
        modified_at: None,
        likes,
        dislikes: 0,
        reply_count: 0,
        is_best: best,
        is_deleted: false,
        replies: vec![],
    }
}

#[test]
fn test_convert_comment_basic() {
    let raw = RawComment {
        comment_no: 12345,
        parent_comment_no: 0,
        contents: "테스트 댓글입니다.".to_string(),
        user_name: "테스터".to_string(),
        masked_user_id: "test****".to_string(),
        reg_time: 1702684800000,
        sympathy_count: 10,
        antipathy_count: 2,
        reply_count: 3,
        visible: true,
        ..Default::default()
    };

    let comment = convert_comment(&raw);

    assert_eq!(comment.id, "12345");
    assert!(comment.parent_id.is_none());
    assert_eq!(comment.content, "테스트 댓글입니다.");
    assert_eq!(comment.author, "테스터");
    assert_eq!(comment.likes, 10);
    assert_eq!(comment.dislikes, 2);
    assert_eq!(comment.reply_count, 3);
    assert!(!comment.is_deleted);
}

#[test]
fn test_convert_comment_reply() {
    let raw = RawComment {
        comment_no: 12346,
        parent_comment_no: 12345,
        contents: "답글입니다.".to_string(),
        user_name: "답글러".to_string(),
        visible: true,
        ..Default::default()
    };

    let comment = convert_comment(&raw);

    assert_eq!(comment.id, "12346");
    assert_eq!(comment.parent_id, Some("12345".to_string()));
    assert!(!comment.is_top_level());
}

#[test]
fn test_convert_comment_deleted() {
    let raw = RawComment {
        comment_no: 12347,
        deleted: true,
        visible: false,
        ..Default::default()
    };

    let comment = convert_comment(&raw);
    assert!(comment.is_deleted);
}

#[test]
fn test_clean_comment_content() {
    let html = "<b>굵은</b> 텍스트와 <a href='#'>링크</a>";
    assert_eq!(clean_comment_content(html), "굵은 텍스트와 링크");

    let entities = "안녕&amp;하세요 &lt;테스트&gt;";
    assert_eq!(clean_comment_content(entities), "안녕&하세요 <테스트>");

    let whitespace = "여러   공백이    있는   텍스트";
    assert_eq!(clean_comment_content(whitespace), "여러 공백이 있는 텍스트");
}

#[test]
fn clean_comment_content_keeps_lone_brackets_and_trims() {
    assert_eq!(clean_comment_content("  a <> b < c  "), "a <> b < c");
    assert_eq!(clean_comment_content("x<y\n\tz>w"), "xw");
    assert_eq!(clean_comment_content("\u{3000}말\n\n끝 "), "말 끝");
}

#[test]
fn convert_comment_ids_and_modification_time() {
    let raw = RawComment {
        comment_no: -7,
        parent_comment_no: -1,
        reg_time: 1000,
        mod_time: 1000,
        ..Default::default()
    };
    let c = convert_comment(&raw);
    assert_eq!(c.id, "-7");
    assert!(c.parent_id.is_none());
    assert_eq!(c.modified_at, None);
    let raw2 = RawComment { reg_time: 1000, mod_time: 2000, visible: false, ..Default::default() };
    let c2 = convert_comment(&raw2);
    assert_eq!(c2.modified_at, Some(2000));
    assert!(c2.is_deleted);
}

#[test]
fn convert_comments_skips_hidden_and_deleted() {
    let raws = vec![
        RawComment { comment_no: 1, ..Default::default() },
        RawComment { comment_no: 2, visible: false, ..Default::default() },
        RawComment { comment_no: 3, deleted: true, ..Default::default() },
        RawComment { comment_no: 4, ..Default::default() },
    ];
    let out = convert_comments(&raws);
    let ids: Vec<&str> = out.iter().map(|c| c.id.as_str()).collect();
    assert_eq!(ids, vec!["1", "4"]);
}

#[test]
fn test_build_comment_tree() {
    let mut top1 = comment("1", None, 10, false, 0);
    top1.reply_count = 2;
    let comments = vec![top1, comment("2", Some("1"), 5, false, 0), comment("3", None, 20, true, 0)];

    let tree = build_comment_tree(comments);

    assert_eq!(tree.len(), 2);
    assert!(tree[0].is_best);
    assert_eq!(tree[0].id, "3");
    assert_eq!(tree[1].id, "1");
    assert_eq!(tree[1].replies.len(), 1);
    assert_eq!(tree[1].replies[0].id, "2");
}

#[test]
fn build_comment_tree_nests_and_orders_replies() {
    let comments = vec![
        comment("r2", Some("t"), 0, false, 30),
        comment("t", None, 1, false, 0),
        comment("r1", Some("t"), 0, false, 10),
        comment("rr", Some("r2"), 0, false, 40),
        comment("orphan", Some("missing"), 0, false, 5),
        comment("u", None, 1, false, 0),
        comment("v", None, 3, false, 0),
    ];
    let tree = build_comment_tree(comments);
    let ids: Vec<&str> = tree.iter().map(|c| c.id.as_str()).collect();
    // more likes first; equal likes keep their order
    assert_eq!(ids, vec!["v", "t", "u"]);
    let t = &tree[1];
    let reply_ids: Vec<&str> = t.replies.iter().map(|c| c.id.as_str()).collect();
    assert_eq!(reply_ids, vec!["r1", "r2"]);
    assert_eq!(t.replies[1].replies.len(), 1);
    assert_eq!(t.replies[1].replies[0].id, "rr");
    assert_eq!(t.total_count(), 4);
}

fn assert_threaded(c: &Comment) {
    for r in &c.replies {
        assert_eq!(r.parent_id.as_deref(), Some(c.id.as_str()));
        assert_threaded(r);
    }
}

#[test]
fn comment_tree_is_threaded_at_every_depth() {
    let comments = vec![
        comment("d3", Some("d2"), 0, false, 4),
        comment("d1", Some("root"), 0, false, 2),
        comment("root", None, 0, false, 1),
        comment("d2", Some("d1"), 0, false, 3),
        comment("x", Some("y"), 0, false, 5),
        comment("y", Some("x"), 0, false, 6),
    ];
    let tree = build_comment_tree(comments);
    assert_eq!(tree.len(), 1);
    for t in &tree {
        assert_eq!(t.parent_id, None);
        assert_threaded(t);
    }
    assert_eq!(tree[0].replies[0].replies[0].replies[0].id, "d3");
    // a cycle of replies never reaches the top, so it is left out
    assert_eq!(tree[0].total_count(), 4);
}

fn assert_complete(c: &Comment, input: &[Comment]) {
    let mut expected: Vec<&Comment> =
        input.iter().filter(|r| r.parent_id.as_deref() == Some(c.id.as_str())).collect();
    expected.sort_by(|a, b| a.created_at.cmp(&b.created_at));
    let got: Vec<&str> = c.replies.iter().map(|r| r.id.as_str()).collect();
    let want: Vec<&str> = expected.iter().map(|r| r.id.as_str()).collect();
    assert_eq!(got, want);
    for r in &c.replies {
        assert_complete(r, input);
    }
}

fn reply_forest() -> Vec<Comment> {
    vec![
        comment("b2", Some("b"), 0, false, 9),
        comment("a", None, 5, false, 1),
        comment("b", None, 7, false, 2),
        comment("a1", Some("a"), 0, false, 8),
        comment("b1", Some("b"), 0, false, 3),
        comment("a2", Some("a"), 0, false, 8),
        comment("a1x", Some("a1"), 0, false, 4),
        comment("b3", Some("b"), 0, false, 6),
    ]
}

#[test]
fn comment_tree_holds_every_reply_in_time_order() {
    let input = reply_forest();
    let tree = build_comment_tree(reply_forest());
    let ids: Vec<&str> = tree.iter().map(|c| c.id.as_str()).collect();
    assert_eq!(ids, vec!["b", "a"]);
    for t in &tree {
        assert_complete(t, &input);
    }
    let a_replies: Vec<&str> = tree[1].replies.iter().map(|c| c.id.as_str()).collect();
    assert_eq!(a_replies, vec!["a1", "a2"]);
    assert_eq!(tree[1].replies[0].replies[0].id, "a1x");
}

#[test]
fn test_comment_total_count() {
    let mut c = comment("1", None, 0, false, 0);
    c.reply_count = 2;
    c.replies = vec![comment("2", Some("1"), 0, false, 0), comment("3", Some("1"), 0, false, 0)];
    assert_eq!(c.total_count(), 3);
    assert!(c.has_replies());
}

#[test]
fn test_build_url() {
    let url = CommentClient::build_url("001", "0014000001", 1, 100, "new");

    assert!(url.contains("objectId=news001,0014000001"));
    assert!(url.contains("page=1"));
    assert!(url.contains("pageSize=100"));
    assert!(url.contains("sort=new"));
}

#[test]
fn build_url_exact_form() {
    let url = CommentClient::build_url("001", "2", 3, 50, "favorite");
    assert_eq!(
        url,
        "https://apis.naver.com/commentBox/cbox/web_naver_list_jsonp.json?ticket=news&templateId=default_it&pool=cbox5&lang=ko&country=KR&objectId=news001,2&pageSize=50&page=3&sort=favorite&_callback=_callback"
    );
}

#[test]
fn check_response_reports_api_errors() {
    let bad = CommentApiResponse { success: false, code: "5000".to_string(), message: Some("bad".to_string()), result: None };
    assert_eq!(CommentClient::check_response(bad).unwrap_err(), "Comment API error: 5000 - bad");
    let bad2 = CommentApiResponse { success: false, code: "1".to_string(), message: None, result: None };
    assert_eq!(CommentClient::check_response(bad2).unwrap_err(), "Comment API error: 1 - ");
    let ok = CommentApiResponse { success: true, code: "200".to_string(), message: None, result: None };
    assert!(CommentClient::check_response(ok).is_ok());
}

#[test]
fn paging_stops_at_last_page_and_on_empty_results() {
    let mut p = CommentPaging::new(0);
    assert_eq!(p.next_page(), Some(1));
    let page = |n: i64, total: i32| CommentResult {
        count: CommentCount::default(),
        page_info: Some(PageInfo { page: 1, total_pages: total, page_size: 100, index_size: 0 }),
        comment_list: vec![RawComment { comment_no: n, ..Default::default() }],
    };
    p.absorb(Some(page(1, 2)));
    assert_eq!(p.next_page(), Some(2));
    p.absorb(Some(page(2, 2)));
    assert_eq!(p.next_page(), None);
    let ids: Vec<String> = p.into_comments().into_iter().map(|c| c.id).collect();
    assert_eq!(ids, vec!["1".to_string(), "2".to_string()]);

    let mut q = CommentPaging::new(5);
    q.absorb(Some(CommentResult { count: CommentCount::default(), page_info: None, comment_list: vec![] }));
    assert_eq!(q.next_page(), None);
    let mut r = CommentPaging::new(1);
    r.absorb(Some(page(9, 10)));
    assert_eq!(r.next_page(), None);
}

#[test]
fn padded_jsonp_with_semicolon_is_unwrapped() {
    assert_eq!(parse_jsonp("  cb_1({\"a\":[1,2]});  \t").unwrap(), "{\"a\":[1,2]}");
    assert_eq!(parse_jsonp("\n$x({});").unwrap(), "{}");
}
