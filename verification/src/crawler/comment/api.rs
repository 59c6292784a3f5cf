//! Naver News comment API endpoints and defaults.
use vstd::prelude::*;

verus! {

/// Base URL for comment API
pub const COMMENT_API_BASE: &'static str = "https://apis.naver.com/commentBox/cbox/web_naver_list_jsonp.json";

/// Default ticket ID
pub const TICKET: &'static str = "news";

/// Default template ID
pub const TEMPLATE_ID: &'static str = "default_it";

/// Default pool
pub const POOL: &'static str = "cbox5";

/// Default language
pub const LANG: &'static str = "ko";

/// Default country
pub const COUNTRY: &'static str = "KR";

/// Default page size
pub const PAGE_SIZE: u32 = 100;

/// Maximum pages to fetch (safety limit)
pub const MAX_PAGES: u32 = 100;

} // verus!
