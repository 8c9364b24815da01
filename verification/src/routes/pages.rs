use vstd::prelude::*;

verus! {

/// The request came from htmx: its `HX-Request` header reads "true".
pub open spec fn is_htmx_spec(header: Option<Seq<u8>>) -> bool {
    header == Some(seq![116u8, 114u8, 117u8, 101u8])
}

/// Whether the request came from htmx, given the bytes of its `HX-Request`
/// header.
pub fn is_htmx(header: Option<&[u8]>) -> (r: bool)
    ensures
        r == is_htmx_spec(match header {
            Some(b) => Some(b@),
            None => None,
        }),
{
    match header {
        Some(b) => {
            let ok = b.len() == 4 && b[0] == 116u8 && b[1] == 114u8 && b[2] == 117u8 && b[3] == 101u8;
            if ok {
                assert(b@ =~= seq![116u8, 114u8, 117u8, 101u8]);
            }
            ok
        },
        None => false,
    }
}

/// The pages that htmx may ask for a part of.
pub enum Page {
    Dashboard,
    Records,
    Calendar,
    SyncStatus,
}

/// The template of a page: only its changing part for htmx, the whole page
/// otherwise.
pub open spec fn template_spec(page: Page, htmx: bool) -> Seq<char> {
    match page {
        Page::Dashboard => if htmx {
            "partials/dashboard_content.html"@
        } else {
            "dashboard.html"@
        },
        Page::Records => if htmx {
            "partials/record_table.html"@
        } else {
            "records.html"@
        },
        Page::Calendar => if htmx {
            "partials/calendar_grid.html"@
        } else {
            "calendar.html"@
        },
        Page::SyncStatus => if htmx {
            "partials/sync_detail.html"@
        } else {
            "sync_status.html"@
        },
    }
}

/// The template of a page: only its changing part for htmx, the whole page
/// otherwise.
pub fn template(page: Page, htmx: bool) -> (r: &'static str)
    ensures
        r@ == template_spec(page, htmx),
{
    match page {
        Page::Dashboard => if htmx {
            "partials/dashboard_content.html"
        } else {
            "dashboard.html"
        },
        Page::Records => if htmx {
            "partials/record_table.html"
        } else {
            "records.html"
        },
        Page::Calendar => if htmx {
            "partials/calendar_grid.html"
        } else {
            "calendar.html"
        },
        Page::SyncStatus => if htmx {
            "partials/sync_detail.html"
        } else {
            "sync_status.html"
        },
    }
}

} // verus!
