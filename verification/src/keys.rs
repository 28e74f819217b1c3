use vstd::prelude::*;

verus! {

/// The path separator in local paths and remote object keys.
pub open spec fn sep() -> u8 {
    47u8  // '/'
}

/// ASCII lower-casing of one byte; bytes outside 'A'..='Z' are unchanged.
pub open spec fn lower_byte(b: u8) -> u8 {
    if 65 <= b <= 90 {
        (b + 32) as u8
    } else {
        b
    }
}

/// ASCII lower-casing of a whole byte string.
pub open spec fn lower_bytes(s: Seq<u8>) -> Seq<u8> {
    s.map_values(|b: u8| lower_byte(b))
}

/// `s` with every doubled separator collapsed: a byte is dropped exactly
/// when it is a separator directly preceded by another separator, so every
/// run of separators shrinks to a single one.
pub open spec fn collapse_seps(s: Seq<u8>) -> Seq<u8>
    decreases s.len(),
{
    if s.len() == 0 {
        Seq::empty()
    } else {
        let pre = collapse_seps(s.drop_last());
        if s.len() >= 2 && s[s.len() - 2] == sep() && s.last() == sep() {
            pre
        } else {
            pre.push(s.last())
        }
    }
}

/// No two adjacent separators anywhere in `s`.
pub open spec fn no_doubled_sep(s: Seq<u8>) -> bool {
    forall|i: int| 0 < i < s.len() ==> !(s[i - 1] == sep() && #[trigger] s[i] == sep())
}

/// The key post-processing applied to every derived directory-mode key:
/// collapse doubled separators, then lower-case.
pub open spec fn normalize_spec(s: Seq<u8>) -> Seq<u8> {
    lower_bytes(collapse_seps(s))
}

/// A non-empty string keeps its last byte under collapsing, and stays
/// non-empty.
proof fn lemma_collapse_last(s: Seq<u8>)
    requires
        s.len() >= 1,
    ensures
        collapse_seps(s).len() >= 1,
        collapse_seps(s).last() == s.last(),
    decreases s.len(),
{
    if s.len() >= 2 && s[s.len() - 2] == sep() && s.last() == sep() {
        lemma_collapse_last(s.drop_last());
        assert(s.drop_last().last() == s[s.len() - 2]);
    }
}

/// Collapsing leaves no doubled separator behind.
proof fn lemma_collapse_no_doubled(s: Seq<u8>)
    ensures
        no_doubled_sep(collapse_seps(s)),
    decreases s.len(),
{
    if s.len() == 0 {
    } else {
        lemma_collapse_no_doubled(s.drop_last());
        let pre = collapse_seps(s.drop_last());
        if s.len() >= 2 && s[s.len() - 2] == sep() && s.last() == sep() {
        } else {
            if s.len() >= 2 && s.last() == sep() && pre.len() >= 1 {
                lemma_collapse_last(s.drop_last());
                assert(pre.last() == s[s.len() - 2]);
                assert(s[s.len() - 2] != sep());
            }
            assert forall|i: int|
                0 < i < pre.push(s.last()).len() implies !(pre.push(s.last())[i - 1] == sep()
                && #[trigger] pre.push(s.last())[i] == sep()) by {
                if i < pre.len() {
                    assert(pre[i - 1] == pre.push(s.last())[i - 1]);
                    assert(pre[i] == pre.push(s.last())[i]);
                }
            }
        }
    }
}

/// On a string with no doubled separator, collapsing changes nothing.
proof fn lemma_collapse_identity(s: Seq<u8>)
    requires
        no_doubled_sep(s),
    ensures
        collapse_seps(s) == s,
    decreases s.len(),
{
    if s.len() == 0 {
        assert(collapse_seps(s) =~= s);
    } else {
        assert(no_doubled_sep(s.drop_last())) by {
            assert(forall|i: int|
                0 < i < s.drop_last().len() ==> s.drop_last()[i - 1] == s[i - 1]
                    && #[trigger] s.drop_last()[i] == s[i]);
        }
        lemma_collapse_identity(s.drop_last());
        assert(!(s.len() >= 2 && s[s.len() - 2] == sep() && s.last() == sep()));
        assert(s.drop_last().push(s.last()) =~= s);
    }
}

/// Lower-casing keeps length and maps separators to separators, and nothing
/// else to a separator, so it preserves the absence of doubled separators.
proof fn lemma_lower_preserves_no_doubled(s: Seq<u8>)
    requires
        no_doubled_sep(s),
    ensures
        no_doubled_sep(lower_bytes(s)),
{
    assert forall|i: int|
        0 < i < lower_bytes(s).len() implies !(lower_bytes(s)[i - 1] == sep()
        && #[trigger] lower_bytes(s)[i] == sep()) by {
        assert(lower_bytes(s)[i - 1] == lower_byte(s[i - 1]));
        assert(lower_bytes(s)[i] == lower_byte(s[i]));
    }
}

/// Key-normalization idempotence: applying the post-processing (separator
/// collapse, then lower-casing) twice gives the same key as applying it once.
pub proof fn lemma_normalize_idempotent(s: Seq<u8>)
    ensures
        normalize_spec(normalize_spec(s)) == normalize_spec(s),
{
    lemma_collapse_no_doubled(s);
    lemma_lower_preserves_no_doubled(collapse_seps(s));
    lemma_collapse_identity(normalize_spec(s));
    assert(lower_bytes(normalize_spec(s)) =~= normalize_spec(s)) by {
        assert forall|i: int| 0 <= i < normalize_spec(s).len() implies #[trigger] lower_bytes(
            normalize_spec(s),
        )[i] == normalize_spec(s)[i] by {
            assert(normalize_spec(s)[i] == lower_byte(collapse_seps(s)[i]));
            assert(lower_byte(lower_byte(collapse_seps(s)[i])) == lower_byte(
                collapse_seps(s)[i],
            ));
        }
    }
}

/// Apply the key post-processing: drop every separator that directly follows
/// another separator, and lower-case every ASCII letter.
pub fn normalize_key(key: &Vec<u8>) -> (res: Vec<u8>)
    ensures
        res@ == normalize_spec(key@),
{
    let mut res: Vec<u8> = Vec::new();
    let mut i: usize = 0;
    while i < key.len()
        invariant
            i <= key@.len(),
            res@ == lower_bytes(collapse_seps(key@.take(i as int))),
        decreases key@.len() - i,
    {
        let b = key[i];
        let keep = !(i > 0 && b == 47 && key[i - 1] == 47);
        let lowered = if 65 <= b && b <= 90 {
            b + 32
        } else {
            b
        };
        proof {
            let t1 = key@.take(i + 1);
            assert(t1.drop_last() =~= key@.take(i as int));
            assert(t1.last() == key@[i as int]);
            if keep {
                assert(collapse_seps(t1) == collapse_seps(key@.take(i as int)).push(key@[i as int]));
                assert(lower_bytes(collapse_seps(t1)) =~= res@.push(lower_byte(key@[i as int])));
            } else {
                assert(collapse_seps(t1) == collapse_seps(key@.take(i as int)));
            }
        }
        if keep {
            res.push(lowered);
        }
        i += 1;
    }
    proof {
        assert(key@.take(key@.len() as int) =~= key@);
    }
    res
}

/// The byte string "uploads/", the default key namespace.
pub open spec fn uploads_prefix() -> Seq<u8> {
    seq![117u8, 112u8, 108u8, 111u8, 97u8, 100u8, 115u8, 47u8]
}

/// The byte string "http", the scheme test applied to a download domain.
pub open spec fn http_prefix() -> Seq<u8> {
    seq![104u8, 116u8, 116u8, 112u8]
}

/// The byte string "https://", prepended to a bare download domain.
pub open spec fn https_scheme() -> Seq<u8> {
    seq![104u8, 116u8, 116u8, 112u8, 115u8, 58u8, 47u8, 47u8]
}

/// `d` with one leading separator removed, if it has one.
pub open spec fn strip_lead_sep(d: Seq<u8>) -> Seq<u8> {
    if d.len() >= 1 && d[0] == sep() {
        d.skip(1)
    } else {
        d
    }
}

/// `d` with one trailing separator removed, if it has one.
pub open spec fn strip_trail_sep(d: Seq<u8>) -> Seq<u8> {
    if d.len() >= 1 && d.last() == sep() {
        d.drop_last()
    } else {
        d
    }
}

/// The destination prefix as used in a key: one leading and one trailing
/// separator stripped.
pub open spec fn trim_seps(d: Seq<u8>) -> Seq<u8> {
    strip_trail_sep(strip_lead_sep(d))
}

/// `s` with the prefix `p` removed when `p` really is a prefix of `s`,
/// otherwise `s` unchanged.
pub open spec fn strip_prefix_or_self(s: Seq<u8>, p: Seq<u8>) -> Seq<u8> {
    if p.is_prefix_of(s) {
        s.skip(p.len() as int)
    } else {
        s
    }
}

/// `s` with every trailing separator removed.
pub open spec fn strip_trailing_seps(s: Seq<u8>) -> Seq<u8>
    decreases s.len(),
{
    if s.len() >= 1 && s.last() == sep() {
        strip_trailing_seps(s.drop_last())
    } else {
        s
    }
}

/// The part of `s` after its last separator (all of `s` if it has none).
pub open spec fn after_last_sep(s: Seq<u8>) -> Seq<u8>
    decreases s.len(),
{
    if s.len() == 0 {
        s
    } else if s.last() == sep() {
        Seq::empty()
    } else {
        after_last_sep(s.drop_last()).push(s.last())
    }
}

/// The last path component of `s`: trailing separators are ignored, and the
/// bytes after the last remaining separator are the name.
pub open spec fn base_name_spec(s: Seq<u8>) -> Seq<u8> {
    after_last_sep(strip_trailing_seps(s))
}

/// The remote key of one file in a directory batch, before any separator
/// collapse or lower-casing: destination prefix (trimmed), directory
/// namespace and the item path relative to the root, joined by separators;
/// without a destination prefix, the item path under "uploads/".
pub open spec fn dir_key_raw(
    dest: Option<Seq<u8>>,
    dir_name: Seq<u8>,
    root: Seq<u8>,
    item: Seq<u8>,
) -> Seq<u8> {
    match dest {
        Some(d) => trim_seps(d) + seq![sep()] + dir_name + seq![sep()] + strip_prefix_or_self(
            item,
            root,
        ),
        None => uploads_prefix() + item,
    }
}

/// The final remote key of one file in a directory batch.
pub open spec fn dir_key_spec(
    dest: Option<Seq<u8>>,
    dir_name: Seq<u8>,
    root: Seq<u8>,
    item: Seq<u8>,
) -> Seq<u8> {
    normalize_spec(dir_key_raw(dest, dir_name, root, item))
}

/// The remote key in single-file mode: an explicit object name verbatim,
/// otherwise the file's base name under "uploads/".
pub open spec fn single_file_key_spec(explicit: Option<Seq<u8>>, path: Seq<u8>) -> Seq<u8> {
    match explicit {
        Some(name) => name,
        None => uploads_prefix() + base_name_spec(path),
    }
}

/// The download link: empty without a domain; the domain (given a scheme
/// of its own when it does not start with "http") with the object name
/// appended after a separator.
pub open spec fn download_url_spec(domain: Option<Seq<u8>>, object: Seq<u8>) -> Seq<u8> {
    match domain {
        Some(d) => if http_prefix().is_prefix_of(d) {
            d + seq![sep()] + object
        } else {
            https_scheme() + d + seq![sep()] + object
        },
        None => Seq::empty(),
    }
}

/// The view of an optional borrowed byte string.
pub open spec fn opt_view(o: Option<&Vec<u8>>) -> Option<Seq<u8>> {
    match o {
        Some(d) => Some(d@),
        None => None,
    }
}

/// Append `src[start..end]` to `dst`.
fn append_range(dst: &mut Vec<u8>, src: &Vec<u8>, start: usize, end: usize)
    requires
        start <= end <= src@.len(),
    ensures
        final(dst)@ == old(dst)@ + src@.subrange(start as int, end as int),
{
    let ghost dst0 = dst@;
    let mut i: usize = start;
    while i < end
        invariant
            start <= i <= end <= src@.len(),
            dst@ == dst0 + src@.subrange(start as int, i as int),
        decreases end - i,
    {
        dst.push(src[i]);
        i += 1;
        proof {
            assert(dst@ =~= dst0 + src@.subrange(start as int, i as int));
        }
    }
}

/// Append all of `src` to `dst`.
fn append_bytes(dst: &mut Vec<u8>, src: &Vec<u8>)
    ensures
        final(dst)@ == old(dst)@ + src@,
{
    append_range(dst, src, 0, src.len());
    proof {
        assert(old(dst)@ + src@.subrange(0, src@.len() as int) =~= old(dst)@ + src@);
    }
}

/// Whether `p` is a prefix of `s`.
fn is_prefix(s: &Vec<u8>, p: &Vec<u8>) -> (r: bool)
    ensures
        r == p@.is_prefix_of(s@),
{
    if p.len() > s.len() {
        return false;
    }
    let mut i: usize = 0;
    while i < p.len()
        invariant
            i <= p@.len() <= s@.len(),
            forall|k: int| 0 <= k < i ==> p@[k] == s@[k],
        decreases p@.len() - i,
    {
        if p[i] != s[i] {
            proof {
                assert(s@.subrange(0, p@.len() as int)[i as int] == s@[i as int]);
            }
            return false;
        }
        i += 1;
    }
    proof {
        assert(p@ =~= s@.subrange(0, p@.len() as int));
    }
    true
}

/// A fresh vector holding "uploads/".
fn uploads_prefix_vec() -> (res: Vec<u8>)
    ensures
        res@ == uploads_prefix(),
{
    let mut res: Vec<u8> = Vec::new();
    res.push(117);
    res.push(112);
    res.push(108);
    res.push(111);
    res.push(97);
    res.push(100);
    res.push(115);
    res.push(47);
    proof {
        assert(res@ =~= uploads_prefix());
    }
    res
}

/// Removing trailing separators is the same as cutting at `end`, when only
/// separators stand at `end..` and `end` is not preceded by a separator run
/// boundary violation.
proof fn lemma_strip_trailing_is_take(s: Seq<u8>, end: int)
    requires
        0 <= end <= s.len(),
        forall|k: int| end <= k < s.len() ==> s[k] == sep(),
        end == 0 || s[end - 1] != sep(),
    ensures
        strip_trailing_seps(s) == s.take(end),
    decreases s.len(),
{
    if s.len() == 0 {
        assert(s.take(0) =~= s);
    } else if s.last() == sep() {
        if end == s.len() {
            assert(s[end - 1] == sep());
            assert(false);
        }
        lemma_strip_trailing_is_take(s.drop_last(), end);
        assert(s.drop_last().take(end) =~= s.take(end));
    } else {
        assert(end == s.len());
        assert(s.take(end) =~= s);
    }
}

/// The part after the last separator is the same as the tail from `start`,
/// when no separator stands at `start..` and `start` sits right after a
/// separator or at the beginning.
proof fn lemma_after_last_is_skip(s: Seq<u8>, start: int)
    requires
        0 <= start <= s.len(),
        forall|k: int| start <= k < s.len() ==> s[k] != sep(),
        start == 0 || s[start - 1] == sep(),
    ensures
        after_last_sep(s) == s.skip(start),
    decreases s.len(),
{
    if s.len() == 0 {
        assert(s.skip(0) =~= s);
    } else if s.last() == sep() {
        assert(start == s.len());
        assert(s.skip(start) =~= Seq::<u8>::empty());
    } else {
        assert(start < s.len());
        lemma_after_last_is_skip(s.drop_last(), start);
        assert(s.drop_last().skip(start).push(s.last()) =~= s.skip(start));
    }
}

/// The last path component of `path`: trailing separators dropped, then the
/// bytes after the last separator.
pub fn base_name(path: &Vec<u8>) -> (res: Vec<u8>)
    ensures
        res@ == base_name_spec(path@),
{
    let mut end: usize = path.len();
    while end > 0 && path[end - 1] == 47
        invariant
            end <= path@.len(),
            forall|k: int| end <= k < path@.len() ==> path@[k] == sep(),
        decreases end,
    {
        end -= 1;
    }
    proof {
        lemma_strip_trailing_is_take(path@, end as int);
    }
    let mut start: usize = end;
    while start > 0 && path[start - 1] != 47
        invariant
            start <= end <= path@.len(),
            forall|k: int| start <= k < end ==> path@[k] != sep(),
        decreases start,
    {
        start -= 1;
    }
    proof {
        let t = path@.take(end as int);
        lemma_after_last_is_skip(t, start as int);
        assert(t.skip(start as int) =~= path@.subrange(start as int, end as int));
    }
    let mut res: Vec<u8> = Vec::new();
    append_range(&mut res, path, start, end);
    proof {
        assert(Seq::<u8>::empty() + path@.subrange(start as int, end as int) =~= path@.subrange(
            start as int,
            end as int,
        ));
    }
    res
}

/// Derive the remote key of one file in a directory batch from the optional
/// destination prefix, the root directory's namespace name, the root path
/// and the file's full path, and apply the key post-processing.
pub fn derive_directory_key(
    dest_prefix: Option<&Vec<u8>>,
    dir_name: &Vec<u8>,
    root_path: &Vec<u8>,
    item_path: &Vec<u8>,
) -> (key: Vec<u8>)
    ensures
        key@ == dir_key_spec(opt_view(dest_prefix), dir_name@, root_path@, item_path@),
{
    match dest_prefix {
        Some(d) => {
            let n = d.len();
            let start: usize = if n >= 1 && d[0] == 47 {
                1
            } else {
                0
            };
            let end: usize = if n > start && d[n - 1] == 47 {
                n - 1
            } else {
                n
            };
            proof {
                assert(strip_lead_sep(d@) =~= d@.subrange(start as int, n as int));
                assert(trim_seps(d@) =~= d@.subrange(start as int, end as int));
            }
            let mut raw: Vec<u8> = Vec::new();
            append_range(&mut raw, d, start, end);
            raw.push(47);
            append_bytes(&mut raw, dir_name);
            raw.push(47);
            let rel_start: usize = if is_prefix(item_path, root_path) {
                root_path.len()
            } else {
                0
            };
            append_range(&mut raw, item_path, rel_start, item_path.len());
            proof {
                assert(item_path@.subrange(rel_start as int, item_path@.len() as int)
                    =~= strip_prefix_or_self(item_path@, root_path@));
                assert(raw@ =~= dir_key_raw(Some(d@), dir_name@, root_path@, item_path@));
            }
            normalize_key(&raw)
        },
        None => {
            let mut raw = uploads_prefix_vec();
            append_bytes(&mut raw, item_path);
            normalize_key(&raw)
        },
    }
}

/// The remote key in single-file mode: the explicit object name verbatim if
/// one was given, otherwise the file's base name under "uploads/".
pub fn single_file_object_name(explicit: Option<&Vec<u8>>, file_path: &Vec<u8>) -> (name: Vec<u8>)
    ensures
        name@ == single_file_key_spec(opt_view(explicit), file_path@),
{
    match explicit {
        Some(given) => {
            let mut name: Vec<u8> = Vec::new();
            append_bytes(&mut name, given);
            proof {
                assert(Seq::<u8>::empty() + given@ =~= given@);
            }
            name
        },
        None => {
            let mut name = uploads_prefix_vec();
            let base = base_name(file_path);
            append_bytes(&mut name, &base);
            name
        },
    }
}

/// The download link for an uploaded object: empty when no domain is
/// configured; otherwise the domain (prefixed with "https://" when it does
/// not already start with "http") joined to the object name.
pub fn get_download_url(domain_name: Option<Vec<u8>>, object_name: &Vec<u8>) -> (url: Vec<u8>)
    ensures
        url@ == download_url_spec(
            match domain_name {
                Some(d) => Some(d@),
                None => None,
            },
            object_name@,
        ),
{
    match domain_name {
        Some(d) => {
            let mut http: Vec<u8> = Vec::new();
            http.push(104);
            http.push(116);
            http.push(116);
            http.push(112);
            proof {
                assert(http@ =~= http_prefix());
            }
            if is_prefix(&d, &http) {
                let mut url = d;
                url.push(47);
                append_bytes(&mut url, object_name);
                url
            } else {
                let mut url: Vec<u8> = Vec::new();
                url.push(104);
                url.push(116);
                url.push(116);
                url.push(112);
                url.push(115);
                url.push(58);
                url.push(47);
                url.push(47);
                proof {
                    assert(url@ =~= https_scheme());
                }
                append_bytes(&mut url, &d);
                url.push(47);
                append_bytes(&mut url, object_name);
                url
            }
        },
        None => {
            Vec::new()
        },
    }
}

} // verus!
