//! Checks and names of the upload and download endpoints.
use vstd::prelude::*;
use crate::error::{bad_request, error_view, AppError};
use crate::text::{
    ascii_lowercase, ascii_lowercase_exec, chars_of, matches_at, matches_at_exec,
};

verus! {

/// The largest upload accepted: 10 MiB.
pub const MAX_UPLOAD_BYTES: usize = 10485760;

/// `s` ends with `p`.
pub open spec fn ends_with(s: Seq<char>, p: Seq<char>) -> bool {
    p.len() <= s.len() && matches_at(s, p, s.len() - p.len())
}

fn ends_with_exec(s: &Vec<char>, p: &Vec<char>) -> (b: bool)
    ensures
        b == ends_with(s@, p@),
{
    if p.len() > s.len() {
        return false;
    }
    matches_at_exec(s, p, s.len() - p.len())
}

/// Accepts an upload name ending in `.md` or `.markdown`, in any ASCII case.
pub fn validate_markdown_filename(name: &str) -> (r: Result<(), AppError>)
    ensures
        r is Ok <==> (ends_with(ascii_lowercase(name@), ".md"@) || ends_with(
            ascii_lowercase(name@),
            ".markdown"@,
        )),
        r matches Err(e) ==> error_view(e) == bad_request(
            "only .md and .markdown files are accepted"@,
        ),
{
    let lower = chars_of(ascii_lowercase_exec(name).as_str());
    if ends_with_exec(&lower, &chars_of(".md")) || ends_with_exec(&lower, &chars_of(".markdown")) {
        Ok(())
    } else {
        Err(AppError::BadRequest(String::from_str("only .md and .markdown files are accepted")))
    }
}

/// The index just after the last `/` or `\` of `s` before `i` (0 when there is none).
pub open spec fn name_start(s: Seq<char>, i: int) -> int
    decreases i,
{
    if i <= 0 {
        0
    } else if s[i - 1] == '/' || s[i - 1] == '\\' {
        i
    } else {
        name_start(s, i - 1)
    }
}

/// The characters of `s` other than NUL.
pub open spec fn without_nul(s: Seq<char>) -> Seq<char>
    decreases s.len(),
{
    if s.len() == 0 {
        seq![]
    } else if s.last() == '\0' {
        without_nul(s.drop_last())
    } else {
        without_nul(s.drop_last()).push(s.last())
    }
}

proof fn lemma_name_start(s: Seq<char>, i: int)
    requires
        0 <= i <= s.len(),
    ensures
        0 <= name_start(s, i) <= i,
        forall|k: int| name_start(s, i) <= k < i ==> s[k] != '/' && s[k] != '\\',
    decreases i,
{
    if i > 0 && !(s[i - 1] == '/' || s[i - 1] == '\\') {
        lemma_name_start(s, i - 1);
    }
}

proof fn lemma_without_nul(s: Seq<char>)
    ensures
        forall|k: int| 0 <= k < without_nul(s).len() ==> #[trigger] without_nul(s)[k] != '\0'
            && s.contains(without_nul(s)[k]),
    decreases s.len(),
{
    if s.len() > 0 {
        let t = s.drop_last();
        lemma_without_nul(t);
        assert forall|k: int| 0 <= k < without_nul(s).len() implies #[trigger] without_nul(s)[k]
            != '\0' && s.contains(without_nul(s)[k]) by {
            if k < without_nul(t).len() {
                assert(without_nul(s)[k] == without_nul(t)[k]);
                let j = choose|j: int| 0 <= j < t.len() && t[j] == without_nul(t)[k];
                assert(s[j] == t[j]);
            } else {
                assert(s[s.len() - 1] == without_nul(s)[k]);
            }
        }
    }
}

/// A shown upload name holds no `/`, `\` or NUL: it cannot name another directory.
pub proof fn lemma_display_name_is_plain(name: Seq<char>)
    ensures
        forall|k: int|
            0 <= k < without_nul(name.skip(name_start(name, name.len() as int))).len() ==> {
                let c = #[trigger] without_nul(name.skip(name_start(name, name.len() as int)))[k];
                c != '/' && c != '\\' && c != '\0'
            },
{
    let st = name_start(name, name.len() as int);
    lemma_name_start(name, name.len() as int);
    let base = name.skip(st);
    lemma_without_nul(base);
    assert forall|k: int| 0 <= k < without_nul(base).len() implies {
        let c = #[trigger] without_nul(base)[k];
        c != '/' && c != '\\' && c != '\0'
    } by {
        let c = without_nul(base)[k];
        let j = choose|j: int| 0 <= j < base.len() && base[j] == c;
        assert(base[j] == name[st + j]);
    }
}

/// The name to show for an upload: what follows its last `/` or `\`, without NUL
/// characters.
pub fn sanitize_display_name(name: &str) -> (r: String)
    ensures
        r@ == without_nul(name@.skip(name_start(name@, name@.len() as int))),
{
    let v = chars_of(name);
    let mut i = v.len();
    while i > 0 && v[i - 1] != '/' && v[i - 1] != '\\'
        invariant
            i <= v@.len(),
            v@ == name@,
            name_start(v@, v@.len() as int) == name_start(v@, i as int),
        decreases i,
    {
        i -= 1;
    }
    let ghost base = v@.skip(i as int);
    let mut r = String::new();
    let mut k = i;
    while k < v.len()
        invariant
            i <= k <= v@.len(),
            base == v@.skip(i as int),
            r@ == without_nul(v@.subrange(i as int, k as int)),
        decreases v@.len() - k,
    {
        proof {
            assert(v@.subrange(i as int, k + 1).drop_last() =~= v@.subrange(i as int, k as int));
        }
        if v[k] != '\0' {
            r.push(v[k]);
        }
        k += 1;
    }
    assert(v@.subrange(i as int, v@.len() as int) =~= base);
    r
}

/// Refuses an empty upload or one over 10 MiB.
pub fn validate_upload(size: usize) -> (r: Result<(), AppError>)
    ensures
        r is Ok <==> (size > 0 && size <= MAX_UPLOAD_BYTES),
        r matches Err(e) ==> error_view(e) == bad_request(
            if size == 0 {
                "uploaded file is empty"@
            } else {
                "uploaded file exceeds 10 MiB"@
            },
        ),
{
    if size == 0 {
        return Err(AppError::BadRequest(String::from_str("uploaded file is empty")));
    }
    if size > MAX_UPLOAD_BYTES {
        return Err(AppError::BadRequest(String::from_str("uploaded file exceeds 10 MiB")));
    }
    Ok(())
}

/// How a download is asked for: shown in the browser or saved.
pub struct DownloadQuery {
    pub inline: bool,
}

/// The `Content-Disposition` of a job's PDF.
pub fn download_disposition(job_id: &str, query: &DownloadQuery) -> (r: String)
    ensures
        r@ == (if query.inline {
            "inline"@
        } else {
            "attachment"@
        }) + "; filename=\""@ + job_id@ + ".pdf\""@,
{
    let mut r = if query.inline {
        String::from_str("inline")
    } else {
        String::from_str("attachment")
    };
    r.push_str("; filename=\"");
    r.push_str(job_id);
    r.push_str(".pdf\"");
    r
}

} // verus!
