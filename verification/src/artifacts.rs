//! Artifact review comments: the files named after an artifact, the markdown handed to
//! the agent, and the checks on a prepared review.
use vstd::prelude::*;
use vstd::string::StringSliceAdditionalSpecFns;
use crate::text::{
    chars_of, decimal, has_prefix, is_digit, last_index_of, lines, lines_exec, owned, push_decimal, push_str,
    replace_char, replace_char_exec, rfind_char, slice_chars, split, string_of, strip_prefix, strip_prefix_exec,
};

verus! {

broadcast use vstd::seq_lib::group_seq_properties;

/// The path's components that name something: no empty pieces and no `.`.
pub open spec fn named_parts(parts: Seq<Seq<char>>) -> Seq<Seq<char>>
    decreases parts.len(),
{
    if parts.len() == 0 {
        seq![]
    } else {
        let rest = named_parts(parts.drop_last());
        let p = parts.last();
        if p.len() == 0 || p == "."@ {
            rest
        } else {
            rest.push(p)
        }
    }
}

/// `Path::file_name`: the last component, unless it is `..` or there is none.
pub open spec fn file_name_of(path: Seq<char>) -> Option<Seq<char>> {
    let parts = named_parts(split(path, '/'));
    if parts.len() == 0 || parts.last() == ".."@ {
        None
    } else {
        Some(parts.last())
    }
}

/// `Path::file_stem`: the file name before its last `.`, unless that dot starts it.
pub open spec fn file_stem_of(path: Seq<char>) -> Option<Seq<char>> {
    match file_name_of(path) {
        None => None,
        Some(name) => Some(
            match last_index_of(name, '.') {
                Some(i) => if i > 0 {
                    name.take(i)
                } else {
                    name
                },
                None => name,
            },
        ),
    }
}

/// The stem the comment files of an artifact are named after.
pub open spec fn comment_stem(name: Seq<char>) -> Seq<char> {
    match file_stem_of(name) {
        Some(s) => s,
        None => name,
    }
}

/// `Path::file_name` of a Unix path string.
pub fn path_file_name(path: &str) -> (r: Option<Vec<char>>)
    ensures
        match r {
            Some(n) => file_name_of(path@) == Some(n@),
            None => file_name_of(path@) is None,
        },
{
    let v = chars_of(path);
    let pieces = crate::callback::split_chars(&v, '/');
    let ghost all = split(path@, '/');
    let mut last: Option<usize> = None;
    let mut i: usize = 0;
    assert(all.take(0) =~= Seq::<Seq<char>>::empty());
    while i < pieces.len()
        invariant
            all == split(path@, '/'),
            pieces@.len() == all.len(),
            forall|k: int| 0 <= k < pieces@.len() ==> #[trigger] pieces@[k]@ == all[k],
            i <= pieces@.len(),
            match last {
                Some(j) => j < i && named_parts(all.take(i as int)).len() > 0 && named_parts(all.take(i as int)).last()
                    == all[j as int],
                None => named_parts(all.take(i as int)).len() == 0,
            },
        decreases pieces@.len() - i,
    {
        assert(all.take(i + 1).drop_last() =~= all.take(i as int));
        assert(all.take(i + 1).last() == all[i as int]);
        assert(pieces@[i as int]@ == all[i as int]);
        let p = &pieces[i];
        if !(p.len() == 0 || crate::text::chars_eq_str(p.as_slice(), ".")) {
            last = Some(i);
        }
        i = i + 1;
    }
    assert(all.take(i as int) =~= all);
    match last {
        None => None,
        Some(j) => {
            assert(pieces@[j as int]@ == all[j as int]);
            if crate::text::chars_eq_str(pieces[j].as_slice(), "..") {
                None
            } else {
                Some(slice_chars(&pieces[j], 0, pieces[j].len()))
            }
        },
    }
}

pub fn artifact_comment_stem(name: &str) -> (r: String)
    ensures
        r@ == comment_stem(name@),
{
    let name_v = match path_file_name(name) {
        None => {
            return owned(name);
        },
        Some(n) => n,
    };
    proof {
        crate::text::lemma_last_index_of(name_v@, '.');
    }
    match rfind_char(name_v.as_slice(), '.') {
        Some(d) => if d > 0 {
            string_of(slice_chars(&name_v, 0, d).as_slice())
        } else {
            string_of(name_v.as_slice())
        },
        None => string_of(name_v.as_slice()),
    }
}

/// `Path::extension`: what follows the file name's last `.`, unless that dot starts it.
pub open spec fn extension_of(path: Seq<char>) -> Option<Seq<char>> {
    match file_name_of(path) {
        None => None,
        Some(name) => match last_index_of(name, '.') {
            Some(i) => if i > 0 {
                Some(name.skip(i + 1))
            } else {
                None
            },
            None => None,
        },
    }
}

/// The type of a chat image, from its extension in any case.
pub open spec fn chat_image_mime_spec(name: Seq<char>) -> Result<Seq<char>, Seq<char>> {
    match extension_of(name) {
        Some(e) => {
            let x = crate::text::lower_seq(e);
            if x == "png"@ {
                Ok("image/png"@)
            } else if x == "jpg"@ || x == "jpeg"@ {
                Ok("image/jpeg"@)
            } else if x == "gif"@ {
                Ok("image/gif"@)
            } else if x == "webp"@ {
                Ok("image/webp"@)
            } else {
                Err(name + " — not a chat image"@)
            }
        },
        None => Err(name + " — not a chat image"@),
    }
}

pub fn chat_image_mime(name: &str) -> (r: Result<String, String>)
    ensures
        match r {
            Ok(m) => chat_image_mime_spec(name@) == Ok::<Seq<char>, Seq<char>>(m@),
            Err(e) => chat_image_mime_spec(name@) == Err::<Seq<char>, Seq<char>>(e@),
        },
{
    let ext = match path_file_name(name) {
        None => None,
        Some(n) => {
            proof {
                crate::text::lemma_last_index_of(n@, '.');
            }
            match rfind_char(n.as_slice(), '.') {
                Some(d) => if d > 0 {
                    Some(slice_chars(&n, d + 1, n.len()))
                } else {
                    None
                },
                None => None,
            }
        },
    };
    match ext {
        Some(e) => {
            let x = crate::text::lower_chars(e.as_slice());
            if crate::text::chars_eq_str(x.as_slice(), "png") {
                return Ok(owned("image/png"));
            } else if crate::text::chars_eq_str(x.as_slice(), "jpg") || crate::text::chars_eq_str(x.as_slice(), "jpeg") {
                return Ok(owned("image/jpeg"));
            } else if crate::text::chars_eq_str(x.as_slice(), "gif") {
                return Ok(owned("image/gif"));
            } else if crate::text::chars_eq_str(x.as_slice(), "webp") {
                return Ok(owned("image/webp"));
            }
        },
        None => {},
    }
    let mut m = owned(name);
    push_str(&mut m, " — not a chat image");
    Err(m)
}

/// The largest file a chat attachment may be.
pub const MAX_ATTACHMENT_BYTES: u64 = 26214400;

/// The most a task's attachments may hold together.
pub const MAX_ATTACHMENT_SET_BYTES: u64 = 104857600;

/// The largest chat image that is shown inline.
pub const MAX_CHAT_IMAGE_BYTES: u64 = 5242880;

/// A chat image of `len` bytes is shown inline when it is small enough and of a known
/// type; the answer is its type.
pub fn chat_image_check(name: &str, len: u64) -> (r: Result<String, String>)
    ensures
        len > MAX_CHAT_IMAGE_BYTES ==> (r matches Err(e) && e@ == name@ + " — larger than 5 MB"@),
        len <= MAX_CHAT_IMAGE_BYTES ==> match r {
            Ok(m) => chat_image_mime_spec(name@) == Ok::<Seq<char>, Seq<char>>(m@),
            Err(e) => chat_image_mime_spec(name@) == Err::<Seq<char>, Seq<char>>(e@),
        },
{
    if len > MAX_CHAT_IMAGE_BYTES {
        let mut m = owned(name);
        push_str(&mut m, " — larger than 5 MB");
        return Err(m);
    }
    chat_image_mime(name)
}

/// Whether an attachment of `len` bytes may join a set already holding `batch_bytes`.
pub fn attachment_size_check(file_name: &str, len: u64, batch_bytes: u64) -> (r: Result<(), String>)
    ensures
        len > MAX_ATTACHMENT_BYTES ==> (r matches Err(e) && e@ == file_name@ + " — larger than 25 MB"@),
        len <= MAX_ATTACHMENT_BYTES && batch_bytes + len > MAX_ATTACHMENT_SET_BYTES ==> (r matches Err(e) && e@
            == file_name@ + " — attachment set would exceed 100 MB"@),
        len <= MAX_ATTACHMENT_BYTES && batch_bytes + len <= MAX_ATTACHMENT_SET_BYTES ==> r is Ok,
{
    if len > MAX_ATTACHMENT_BYTES {
        let mut m = owned(file_name);
        push_str(&mut m, " — larger than 25 MB");
        return Err(m);
    }
    if batch_bytes > MAX_ATTACHMENT_SET_BYTES - len {
        let mut m = owned(file_name);
        push_str(&mut m, " — attachment set would exceed 100 MB");
        return Err(m);
    }
    Ok(())
}

/// The first `max_chars` chars of `value`.
pub fn clamp_chars(value: &str, max_chars: usize) -> (r: String)
    ensures
        r@ == value@.take(if max_chars < value@.len() {
            max_chars as int
        } else {
            value@.len() as int
        }),
{
    let v = chars_of(value);
    let n = if max_chars < v.len() {
        max_chars
    } else {
        v.len()
    };
    string_of(slice_chars(&v, 0, n).as_slice())
}

/// Text made safe inside the comment markdown: `&`, `<` and `>` as entities.
pub open spec fn escaped(s: Seq<char>) -> Seq<char> {
    replace_char(replace_char(replace_char(s, '&', "&amp;"@), '<', "&lt;"@), '>', "&gt;"@)
}

pub fn escape_comment_markdown(value: &str) -> (r: String)
    ensures
        r@ == escaped(value@),
{
    let v = chars_of(value);
    let a = replace_char_exec(v.as_slice(), '&', chars_of("&amp;").as_slice());
    let b = replace_char_exec(a.as_slice(), '<', chars_of("&lt;").as_slice());
    let c = replace_char_exec(b.as_slice(), '>', chars_of("&gt;").as_slice());
    string_of(c.as_slice())
}

/// A review comment on an artifact.
pub struct ArtifactComment {
    pub id: String,
    pub artifact: String,
    pub anchor_id: String,
    pub anchor_kind: String,
    pub anchor_label: String,
    pub anchor_excerpt: String,
    pub line_start: u32,
    pub line_end: u32,
    pub body: String,
    pub created_at_ms: u64,
}

/// The excerpt quoted line by line.
pub open spec fn quoted_lines(ls: Seq<Seq<char>>) -> Seq<char>
    decreases ls.len(),
{
    if ls.len() == 0 {
        seq![]
    } else {
        quoted_lines(ls.drop_last()) + "> "@ + ls.last() + "\n"@
    }
}

/// One comment's section of the markdown.
pub open spec fn comment_section(c: ArtifactComment) -> Seq<char> {
    "\n## Comment "@ + c.id@ + " — "@ + escaped(c.anchor_label@) + "\n\n- Anchor: `"@ + c.anchor_id@ + "`\n- Lines: "@
        + decimal(c.line_start as nat) + "-"@ + decimal(c.line_end as nat) + "\n\nContext:\n\n"@ + quoted_lines(
        lines(escaped(c.anchor_excerpt@)),
    ) + "\n<comment id=\""@ + c.id@ + "\" line_start=\""@ + decimal(c.line_start as nat) + "\" line_end=\""@
        + decimal(c.line_end as nat) + "\">\n"@ + escaped(c.body@) + "\n</comment>\n"@
}

/// All sections, in order.
pub open spec fn sections(cs: Seq<ArtifactComment>) -> Seq<char>
    decreases cs.len(),
{
    if cs.len() == 0 {
        seq![]
    } else {
        sections(cs.drop_last()) + comment_section(cs.last())
    }
}

/// The comments file handed to the agent: a header naming the artifact and its comment
/// store, then one section per comment.
pub open spec fn comment_markdown_spec(artifact: Seq<char>, comments: Seq<ArtifactComment>) -> Seq<char> {
    "# Human comments for "@ + artifact + "\n\nGenerated by Alinery from `"@ + comment_stem(artifact)
        + ".comments.json`. Read this file alongside `"@ + artifact + "` before acting on the design.\n"@ + sections(
        comments,
    )
}

fn push_section(out: &mut String, c: &ArtifactComment)
    ensures
        final(out)@ == old(out)@ + comment_section(*c),
{
    let label = escape_comment_markdown(c.anchor_label.as_str());
    let excerpt = escape_comment_markdown(c.anchor_excerpt.as_str());
    let body = escape_comment_markdown(c.body.as_str());
    let ghost start = out@;
    push_str(out, "\n## Comment ");
    push_str(out, c.id.as_str());
    push_str(out, " — ");
    push_str(out, label.as_str());
    push_str(out, "\n\n- Anchor: `");
    push_str(out, c.anchor_id.as_str());
    push_str(out, "`\n- Lines: ");
    push_decimal(out, c.line_start as u64, 0);
    push_str(out, "-");
    push_decimal(out, c.line_end as u64, 0);
    push_str(out, "\n\nContext:\n\n");
    let ghost before_quote = out@;
    let ev = chars_of(excerpt.as_str());
    let ls = lines_exec(&ev);
    let ghost all = lines(excerpt@);
    let mut i: usize = 0;
    assert(all.take(0) =~= Seq::<Seq<char>>::empty());
    while i < ls.len()
        invariant
            all == lines(excerpt@),
            ls@.len() == all.len(),
            forall|k: int| 0 <= k < ls@.len() ==> #[trigger] ls@[k]@ == all[k],
            i <= ls@.len(),
            out@ == before_quote + quoted_lines(all.take(i as int)),
        decreases ls@.len() - i,
    {
        assert(all.take(i + 1).drop_last() =~= all.take(i as int));
        assert(all.take(i + 1).last() == all[i as int]);
        assert(ls@[i as int]@ == all[i as int]);
        push_str(out, "> ");
        crate::text::push_chars(out, ls[i].as_slice());
        push_str(out, "\n");
        i = i + 1;
    }
    assert(all.take(i as int) =~= all);
    push_str(out, "\n<comment id=\"");
    push_str(out, c.id.as_str());
    push_str(out, "\" line_start=\"");
    push_decimal(out, c.line_start as u64, 0);
    push_str(out, "\" line_end=\"");
    push_decimal(out, c.line_end as u64, 0);
    push_str(out, "\">\n");
    push_str(out, body.as_str());
    push_str(out, "\n</comment>\n");
    proof {
        assert(crate::text::dec_padded(c.line_start as nat, 0) == decimal(c.line_start as nat));
        assert(crate::text::dec_padded(c.line_end as nat, 0) == decimal(c.line_end as nat));
        assert(out@ =~= start + comment_section(*c));
    }
}

/// The markdown of an artifact's comments, as written beside the artifact.
pub fn write_artifact_comment_markdown(artifact: &str, comments: &Vec<ArtifactComment>) -> (r: String)
    ensures
        r@ == comment_markdown_spec(artifact@, comments@),
{
    let stem = artifact_comment_stem(artifact);
    let mut out = owned("# Human comments for ");
    push_str(&mut out, artifact);
    push_str(&mut out, "\n\nGenerated by Alinery from `");
    push_str(&mut out, stem.as_str());
    push_str(&mut out, ".comments.json`. Read this file alongside `");
    push_str(&mut out, artifact);
    push_str(&mut out, "` before acting on the design.\n");
    let ghost header = out@;
    let mut i: usize = 0;
    assert(comments@.take(0) =~= Seq::<ArtifactComment>::empty());
    while i < comments.len()
        invariant
            i <= comments@.len(),
            out@ == header + sections(comments@.take(i as int)),
        decreases comments@.len() - i,
    {
        assert(comments@.take(i + 1).drop_last() =~= comments@.take(i as int));
        assert(comments@.take(i + 1).last() == comments@[i as int]);
        push_section(&mut out, &comments[i]);
        i = i + 1;
    }
    assert(comments@.take(i as int) =~= comments@);
    out
}

/// A prepared review's file name: `{stem}.review-NNN.md`, three ASCII digits.
pub open spec fn review_name_ok(stem: Seq<char>, review: Seq<char>) -> bool {
    match strip_prefix(review, stem + ".review-"@) {
        Some(rest) => rest.len() == 6 && rest.subrange(3, 6) == ".md"@ && is_digit(rest[0]) && is_digit(rest[1])
            && is_digit(rest[2]),
        None => false,
    }
}

/// Whether `review` names a prepared review of `artifact`.
pub fn prepared_review_name_ok(artifact: &str, review: &str) -> (r: bool)
    ensures
        r == review_name_ok(comment_stem(artifact@), review@),
{
    let stem = artifact_comment_stem(artifact);
    let mut prefix = stem;
    push_str(&mut prefix, ".review-");
    let rv = chars_of(review);
    match strip_prefix_exec(&rv, prefix.as_str()) {
        Some(rest) => {
            if rest.len() != 6 {
                return false;
            }
            let tail = slice_chars(&rest, 3, 6);
            crate::text::chars_eq_str(tail.as_slice(), ".md") && crate::text::is_digit_char(rest[0])
                && crate::text::is_digit_char(rest[1]) && crate::text::is_digit_char(rest[2])
        },
        None => false,
    }
}

/// The candidate file name for review number `idx`: `{stem}.review-NNN.md`.
pub fn review_file_name(stem: &str, idx: u64) -> (r: String)
    ensures
        r@ == stem@ + ".review-"@ + crate::text::dec_padded(idx as nat, 3) + ".md"@,
{
    let mut out = owned(stem);
    push_str(&mut out, ".review-");
    push_decimal(&mut out, idx, 3);
    push_str(&mut out, ".md");
    out
}

/// What a candidate review file holds, as far as choosing one goes.
#[derive(Clone, Copy, PartialEq, Eq, Structural)]
pub enum ReviewSlot {
    /// No file by that name.
    Missing,
    /// A file with exactly the markdown being prepared.
    Same,
    /// A file with other contents.
    Other,
}

/// Choosing a review file goes through the candidates in order.
pub enum SlotStep {
    /// Use this candidate: it already holds the markdown.
    Found(u32),
    /// Look further, remembering the first free candidate seen.
    Next(Option<u32>),
}

/// One candidate looked at: a file with the same markdown is reused, and otherwise the
/// first free name is kept for later.
pub fn review_slot_step(first_free: Option<u32>, idx: u32, slot: ReviewSlot) -> (r: SlotStep)
    ensures
        slot == ReviewSlot::Same ==> r == SlotStep::Found(idx),
        slot == ReviewSlot::Other ==> r == SlotStep::Next(first_free),
        slot == ReviewSlot::Missing ==> r == SlotStep::Next(
            match first_free {
                Some(f) => Some(f),
                None => Some(idx),
            },
        ),
{
    match slot {
        ReviewSlot::Same => SlotStep::Found(idx),
        ReviewSlot::Other => SlotStep::Next(first_free),
        ReviewSlot::Missing => SlotStep::Next(
            match first_free {
                Some(f) => Some(f),
                None => Some(idx),
            },
        ),
    }
}

/// After the last candidate: the first free name, or no room left.
pub fn review_slot_done(first_free: Option<u32>, artifact: &str) -> (r: Result<u32, String>)
    ensures
        match first_free {
            Some(f) => r == Ok::<u32, String>(f),
            None => r matches Err(e) && e@ == "too many review files for "@ + artifact@,
        },
{
    match first_free {
        Some(f) => Ok(f),
        None => {
            let mut m = owned("too many review files for ");
            push_str(&mut m, artifact);
            Err(m)
        },
    }
}

/// The message that asks the session to address prepared reviews. `items` pairs each
/// artifact with the path of its review file; with a single artifact the message names
/// `single_review_path`.
pub open spec fn prompt_row(item: (String, String)) -> Seq<char> {
    "- `"@ + item.0@ + "` → `"@ + item.1@ + "`"@
}

pub open spec fn prompt_rows(items: Seq<(String, String)>) -> Seq<char>
    decreases items.len(),
{
    if items.len() == 0 {
        seq![]
    } else if items.len() == 1 {
        prompt_row(items[0])
    } else {
        prompt_rows(items.drop_last()) + "\n"@ + prompt_row(items.last())
    }
}

pub open spec fn comments_prompt_spec(items: Seq<(String, String)>, single_review_path: Seq<char>) -> Seq<char> {
    if items.len() == 1 {
        "Human review comments were added for `"@ + items[0].0@ + "`. Read `"@ + single_review_path
            + "`, address each comment in this session, and update `"@ + items[0].0@
            + "` if the design should change; otherwise explain why no change is needed."@
    } else {
        "Human review comments were added for multiple artifacts:\n"@ + prompt_rows(items) + "\n\n"@
            + "Read each review file alongside its paired artifact, address every comment in this session, and update the corresponding artifact when needed; otherwise explain why no change is needed."@
    }
}

pub fn artifact_comments_prompt(items: &Vec<(String, String)>, single_review_path: &str) -> (r: String)
    requires
        items@.len() >= 1,
    ensures
        r@ == comments_prompt_spec(items@, single_review_path@),
{
    if items.len() == 1 {
        let mut m = owned("Human review comments were added for `");
        push_str(&mut m, items[0].0.as_str());
        push_str(&mut m, "`. Read `");
        push_str(&mut m, single_review_path);
        push_str(&mut m, "`, address each comment in this session, and update `");
        push_str(&mut m, items[0].0.as_str());
        push_str(&mut m, "` if the design should change; otherwise explain why no change is needed.");
        return m;
    }
    let mut m = owned("Human review comments were added for multiple artifacts:\n");
    let ghost head = m@;
    let mut i: usize = 0;
    while i < items.len()
        invariant
            i <= items@.len(),
            items@.len() >= 2,
            m@ == head + prompt_rows(items@.take(i as int)),
        decreases items@.len() - i,
    {
        proof {
            assert(items@.take(i + 1).drop_last() =~= items@.take(i as int));
            assert(items@.take(i + 1).last() == items@[i as int]);
            if i == 0 {
                assert(items@.take(1)[0] == items@[0]);
            }
        }
        if i > 0 {
            push_str(&mut m, "\n");
        }
        push_str(&mut m, "- `");
        push_str(&mut m, items[i].0.as_str());
        push_str(&mut m, "` → `");
        push_str(&mut m, items[i].1.as_str());
        push_str(&mut m, "`");
        i = i + 1;
    }
    assert(items@.take(i as int) =~= items@);
    push_str(&mut m, "\n\n");
    push_str(
        &mut m,
        "Read each review file alongside its paired artifact, address every comment in this session, and update the corresponding artifact when needed; otherwise explain why no change is needed.",
    );
    m
}

/// The checks on a prepared review before its comments are finalized: the review file
/// is named after the artifact, and it still holds what was prepared.
pub fn check_prepared_review(artifact: &str, review: &str, review_text: &str, comments_hash: &str) -> (r: Result<
    (),
    String,
>)
    ensures
        !review_name_ok(comment_stem(artifact@), review@) ==> (r matches Err(e) && e@ == "invalid prepared review for "@
            + artifact@),
        review_name_ok(comment_stem(artifact@), review@) && crate::codec::hex_fixed(
            crate::codec::fnv1a64(review_text.spec_bytes()) as nat,
            16,
        ) != comments_hash@ ==> (r matches Err(e) && e@ == "prepared review hash mismatch for "@ + artifact@),
        r is Ok <==> review_name_ok(comment_stem(artifact@), review@) && crate::codec::hex_fixed(
            crate::codec::fnv1a64(review_text.spec_bytes()) as nat,
            16,
        ) == comments_hash@,
{
    if !prepared_review_name_ok(artifact, review) {
        let mut m = owned("invalid prepared review for ");
        push_str(&mut m, artifact);
        return Err(m);
    }
    let h = crate::codec::artifact_text_hash(review_text);
    if !crate::text::str_eq(h.as_str(), comments_hash) {
        let mut m = owned("prepared review hash mismatch for ");
        push_str(&mut m, artifact);
        return Err(m);
    }
    Ok(())
}


// ---- preparing reviews, and checking them before finalizing ---------------------

/// What a prepared review records: the artifact, the review file's name, and the hash
/// of the review's text.
pub struct PreparedArtifactCommentSnapshot {
    pub artifact: String,
    pub review: String,
    pub comments_hash: String,
}

/// The stale-check hash of a text: FNV-1a of its UTF-8 bytes in 16 lowercase hex digits.
pub open spec fn text_hash(s: Seq<char>) -> Seq<char> {
    crate::codec::hex_fixed(crate::codec::fnv1a64(vstd::utf8::encode_utf8(s)) as nat, 16)
}

/// Preparing the comments of `artifacts` for the session, one artifact after another:
/// the reviews prepared so far (`items`, with `rows` pairing each artifact with its review
/// file's path as shown), and the markdown of the artifact in hand, once its comments
/// are read.
pub struct CommentsPrep {
    pub artifacts: Vec<String>,
    pub items: Vec<PreparedArtifactCommentSnapshot>,
    pub rows: Vec<(String, String)>,
    pub markdown: Option<String>,
}

/// What the app found when it did what the last action asked.
pub enum PrepEvent {
    /// The stored comments of the artifact in hand, or why they could not be read.
    Comments(Result<Vec<ArtifactComment>, String>),
    /// The review file the markdown was placed in (its name, and its path as shown), or
    /// why it could not be.
    Placed(Result<(String, String), String>),
}

/// What the app is to do next.
pub enum PrepAction {
    LoadComments { artifact: String },
    /// Write `markdown` beside `artifact`, and place it in a review file.
    Place { artifact: String, markdown: String },
    /// Every artifact has its review: `items` and `rows` are complete.
    Ready,
    Fail(String),
}

/// The reviews prepared so far follow `artifacts`, in order.
pub open spec fn prep_wf(p: CommentsPrep) -> bool {
    &&& p.items@.len() == p.rows@.len()
    &&& p.items@.len() <= p.artifacts@.len()
    &&& forall|k: int|
        0 <= k < p.items@.len() ==> (#[trigger] p.items@[k]).artifact@ == p.artifacts@[k]@ && p.rows@[k].0@
            == p.artifacts@[k]@
    &&& p.markdown is Some ==> p.items@.len() < p.artifacts@.len()
}

/// `event` is what `p` waits for.
pub open spec fn prep_event_fits(p: CommentsPrep, event: PrepEvent) -> bool {
    match event {
        PrepEvent::Comments(_) => p.markdown is None && p.items@.len() < p.artifacts@.len(),
        PrepEvent::Placed(_) => p.markdown is Some,
    }
}

/// Begin preparing the comments of `artifacts`; an empty selection is refused.
pub fn prepare_comments_start(artifacts: Vec<String>) -> (r: (CommentsPrep, PrepAction))
    ensures
        prep_wf(r.0),
        r.0.artifacts@ == artifacts@,
        r.0.items@.len() == 0,
        r.0.markdown is None,
        artifacts@.len() == 0 ==> (r.1 matches PrepAction::Fail(e) && e@ == "no artifact comments selected"@),
        artifacts@.len() > 0 ==> (r.1 matches PrepAction::LoadComments { artifact } && artifact@ == artifacts@[0]@),
{
    let action = if artifacts.len() == 0 {
        PrepAction::Fail(owned("no artifact comments selected"))
    } else {
        PrepAction::LoadComments { artifact: owned(artifacts[0].as_str()) }
    };
    (CommentsPrep { artifacts, items: Vec::new(), rows: Vec::new(), markdown: None }, action)
}

/// The next step of preparing: an artifact without stored comments is refused; one with
/// comments has its markdown written and placed in a review file, recorded with the hash
/// of that markdown; after the last artifact the reviews are ready.
#[verifier::spinoff_prover]
#[verifier::rlimit(30)]
pub fn prepare_comments_step(p: CommentsPrep, event: PrepEvent) -> (r: (CommentsPrep, PrepAction))
    requires
        prep_wf(p),
        prep_event_fits(p, event),
    ensures
        prep_wf(r.0),
        r.0.artifacts@ == p.artifacts@,
        match event {
            PrepEvent::Comments(Err(e)) => r.1 == PrepAction::Fail(e),
            PrepEvent::Comments(Ok(cs)) => {
                let artifact = p.artifacts@[p.items@.len() as int];
                if cs@.len() == 0 {
                    r.1 matches PrepAction::Fail(e) && e@ == "no comments to prepare for "@ + artifact@
                } else {
                    &&& r.0.items@ == p.items@
                    &&& r.0.rows@ == p.rows@
                    &&& r.0.markdown matches Some(md) && md@ == comment_markdown_spec(artifact@, cs@)
                    &&& r.1 matches PrepAction::Place { artifact: a, markdown } && a@ == artifact@ && markdown@
                        == comment_markdown_spec(artifact@, cs@)
                }
            },
            PrepEvent::Placed(Err(e)) => r.1 == PrepAction::Fail(e),
            PrepEvent::Placed(Ok(placed)) => {
                let n = p.items@.len() as int;
                let artifact = p.artifacts@[n];
                let md = p.markdown->0;
                &&& r.0.markdown is None
                &&& r.0.items@.len() == n + 1
                &&& r.0.items@.drop_last() == p.items@
                &&& r.0.items@[n].artifact@ == artifact@
                &&& r.0.items@[n].review == placed.0
                &&& r.0.items@[n].comments_hash@ == text_hash(md@)
                &&& r.0.rows@.drop_last() == p.rows@
                &&& r.0.rows@[n].0@ == artifact@
                &&& r.0.rows@[n].1 == placed.1
                &&& if n + 1 == p.artifacts@.len() {
                    r.1 is Ready
                } else {
                    r.1 matches PrepAction::LoadComments { artifact: next } && next@ == p.artifacts@[n + 1]@
                }
            },
        },
{
    let ghost p0 = p;
    let CommentsPrep { artifacts, items, rows, markdown } = p;
    let n = items.len();
    match event {
        PrepEvent::Comments(Err(e)) => {
            let q = CommentsPrep { artifacts, items, rows, markdown };
            assert(q == p0);
            (q, PrepAction::Fail(e))
        },
        PrepEvent::Comments(Ok(cs)) => {
            let artifact = artifacts[n].as_str();
            if cs.len() == 0 {
                let mut m = owned("no comments to prepare for ");
                push_str(&mut m, artifact);
                let q = CommentsPrep { artifacts, items, rows, markdown };
                assert(q == p0);
                (q, PrepAction::Fail(m))
            } else {
                let md = write_artifact_comment_markdown(artifact, &cs);
                let action = PrepAction::Place { artifact: owned(artifact), markdown: owned(md.as_str()) };
                let q = CommentsPrep { artifacts, items, rows, markdown: Some(md) };
                assert(prep_wf(q));
                (q, action)
            }
        },
        PrepEvent::Placed(Err(e)) => {
            let q = CommentsPrep { artifacts, items, rows, markdown };
            assert(q == p0);
            (q, PrepAction::Fail(e))
        },
        PrepEvent::Placed(Ok((name, path))) => {
            let md = match markdown {
                Some(md) => md,
                None => {
                    proof {
                        assert(false);
                    }
                    String::new()
                },
            };
            let mut items = items;
            let mut rows = rows;
            let ghost items0 = items@;
            let ghost rows0 = rows@;
            let hash = crate::codec::artifact_text_hash(md.as_str());
            items.push(PreparedArtifactCommentSnapshot { artifact: owned(artifacts[n].as_str()), review: name, comments_hash: hash });
            rows.push((owned(artifacts[n].as_str()), path));
            proof {
                assert(items0 == p0.items@ && rows0 == p0.rows@ && artifacts@ == p0.artifacts@);
                assert(items@.drop_last() =~= items0);
                assert(rows@.drop_last() =~= rows0);
                assert forall|k: int| 0 <= k < items@.len() implies (#[trigger] items@[k]).artifact@ == artifacts@[k]@
                    && rows@[k].0@ == artifacts@[k]@ by {
                    if k < n {
                        assert(items@[k] == items0[k]);
                        assert(rows@[k] == rows0[k]);
                        assert(p0.items@[k].artifact@ == p0.artifacts@[k]@ && p0.rows@[k].0@ == p0.artifacts@[k]@);
                    }
                }
            }
            let len = artifacts.len();
            assert(n < len);
            let action = if n == len - 1 {
                PrepAction::Ready
            } else {
                PrepAction::LoadComments { artifact: owned(artifacts[n + 1].as_str()) }
            };
            let q = CommentsPrep { artifacts, items, rows, markdown: None };
            assert(q.items@.len() == q.rows@.len());
            assert(q.items@.len() <= q.artifacts@.len());
            assert(forall|k: int|
                0 <= k < q.items@.len() ==> (#[trigger] q.items@[k]).artifact@ == q.artifacts@[k]@ && q.rows@[k].0@
                    == q.artifacts@[k]@);
            assert(prep_wf(q));
            (q, action)
        },
    }
}

/// Why one prepared review cannot be finalized, if it cannot: its artifact's path was
/// refused (`path_check`), its review file is not named after the artifact, its text could
/// not be read, or the text changed since it was prepared.
pub open spec fn review_failure(
    item: PreparedArtifactCommentSnapshot,
    path_check: Result<(), String>,
    text: Result<String, String>,
) -> Option<Seq<char>> {
    match path_check {
        Err(e) => Some(e@),
        Ok(_) => if !review_name_ok(comment_stem(item.artifact@), item.review@) {
            Some("invalid prepared review for "@ + item.artifact@)
        } else {
            match text {
                Err(e) => Some(e@),
                Ok(t) => if text_hash(t@) != item.comments_hash@ {
                    Some("prepared review hash mismatch for "@ + item.artifact@)
                } else {
                    None
                },
            }
        },
    }
}

/// The failure of the first of the first `k` reviews that has one.
pub open spec fn first_review_failure(
    items: Seq<PreparedArtifactCommentSnapshot>,
    checks: Seq<Result<(), String>>,
    texts: Seq<Result<String, String>>,
    k: int,
) -> Option<Seq<char>>
    decreases k,
{
    if k <= 0 {
        None
    } else {
        match first_review_failure(items, checks, texts, k - 1) {
            Some(e) => Some(e),
            None => review_failure(items[k - 1], checks[k - 1], texts[k - 1]),
        }
    }
}

proof fn lemma_first_failure_stays(
    items: Seq<PreparedArtifactCommentSnapshot>,
    checks: Seq<Result<(), String>>,
    texts: Seq<Result<String, String>>,
    k: int,
    n: int,
)
    requires
        0 <= k <= n,
        first_review_failure(items, checks, texts, k) is Some,
    ensures
        first_review_failure(items, checks, texts, n) == first_review_failure(items, checks, texts, k),
    decreases n - k,
{
    if n > k {
        lemma_first_failure_stays(items, checks, texts, k, n - 1);
    }
}

/// Whether the prepared reviews `items` can be finalized: none at all is refused, and
/// otherwise the first review that fails its check (see [`review_failure`]) says why.
/// `checks[i]` is the check of item `i`'s artifact path, `texts[i]` its review's text.
pub fn validate_comments_finalization(
    items: &Vec<PreparedArtifactCommentSnapshot>,
    checks: &Vec<Result<(), String>>,
    texts: &Vec<Result<String, String>>,
) -> (r: Result<(), String>)
    requires
        checks@.len() == items@.len(),
        texts@.len() == items@.len(),
    ensures
        items@.len() == 0 ==> (r matches Err(e) && e@ == "artifact comment provenance is empty"@),
        items@.len() > 0 ==> match first_review_failure(items@, checks@, texts@, items@.len() as int) {
            None => r is Ok,
            Some(m) => r matches Err(e) && e@ == m,
        },
{
    if items.len() == 0 {
        return Err(owned("artifact comment provenance is empty"));
    }
    let mut i: usize = 0;
    while i < items.len()
        invariant
            checks@.len() == items@.len(),
            texts@.len() == items@.len(),
            i <= items@.len(),
            first_review_failure(items@, checks@, texts@, i as int) is None,
        decreases items@.len() - i,
    {
        let item = &items[i];
        let ghost n = items@.len() as int;
        match &checks[i] {
            Err(e) => {
                proof {
                    lemma_first_failure_stays(items@, checks@, texts@, i + 1, n);
                }
                return Err(owned(e.as_str()));
            },
            Ok(()) => {},
        }
        if !prepared_review_name_ok(item.artifact.as_str(), item.review.as_str()) {
            let mut m = owned("invalid prepared review for ");
            push_str(&mut m, item.artifact.as_str());
            proof {
                lemma_first_failure_stays(items@, checks@, texts@, i + 1, n);
            }
            return Err(m);
        }
        match &texts[i] {
            Err(e) => {
                proof {
                    lemma_first_failure_stays(items@, checks@, texts@, i + 1, n);
                }
                return Err(owned(e.as_str()));
            },
            Ok(t) => {
                match check_prepared_review(item.artifact.as_str(), item.review.as_str(), t.as_str(), item.comments_hash.as_str()) {
                    Ok(()) => {},
                    Err(e) => {
                        proof {
                            lemma_first_failure_stays(items@, checks@, texts@, i + 1, n);
                        }
                        return Err(e);
                    },
                }
            },
        }
        i = i + 1;
    }
    Ok(())
}

/// Reviews checked out as they were prepared pass: when every artifact path is
/// accepted, every review is named after its artifact, and every review still holds the
/// text it was prepared with, finalizing is not refused.
pub proof fn law_unchanged_reviews_finalize(
    items: Seq<PreparedArtifactCommentSnapshot>,
    checks: Seq<Result<(), String>>,
    texts: Seq<Result<String, String>>,
    k: int,
)
    requires
        0 <= k <= items.len(),
        checks.len() == items.len(),
        texts.len() == items.len(),
        forall|i: int| 0 <= i < items.len() ==> (#[trigger] checks[i]) is Ok,
        forall|i: int| 0 <= i < items.len() ==> review_name_ok(comment_stem((#[trigger] items[i]).artifact@), items[i].review@),
        forall|i: int| 0 <= i < items.len() ==> ((#[trigger] texts[i]) matches Ok(t) && text_hash(t@) == items[i].comments_hash@),
    ensures
        first_review_failure(items, checks, texts, k) is None,
    decreases k,
{
    if k > 0 {
        law_unchanged_reviews_finalize(items, checks, texts, k - 1);
        assert(checks[k - 1] is Ok);
        assert(review_name_ok(comment_stem(items[k - 1].artifact@), items[k - 1].review@));
        assert(texts[k - 1] matches Ok(t) && text_hash(t@) == items[k - 1].comments_hash@);
    }
}

/// The PR line of a review approval: the task's PR link, or how to find it.
pub open spec fn pr_line(pr_url: Seq<char>) -> Seq<char> {
    if pr_url.len() == 0 {
        "PR URL: not set in Alinery task metadata; infer it from the checked-out branch/remote if possible."@
    } else {
        "PR URL: "@ + pr_url
    }
}

/// The message that asks the agent to approve a PR from its review findings: the approval
/// is the harness's to submit, never the app's.
pub open spec fn review_approval_prompt_spec(pr_url: Seq<char>, review_artifact: Seq<char>, path: Seq<char>) -> Seq<
    char,
> {
    "Review playbook action: approve this PR through the harness, not through Alinery.\n"@ + pr_line(pr_url)
        + "\nReview findings artifact: "@ + review_artifact + "\nReview findings path: "@ + path
        + "\nRead the findings artifact. If it contains no blocking work, submit an approving GitHub PR review or comment using your own GitHub capability.\nDo not ask Alinery/the local app to call a GitHub approval API; the approval/comment is harness-owned.\nAfter submitting or deciding not to submit, write or update the review-response artifact with the decision and evidence."@
}

/// See [`review_approval_prompt_spec`]; `path` is where the findings artifact resolves.
pub fn review_approval_prompt(pr_url: &str, review_artifact: &str, path: &str) -> (r: String)
    ensures
        r@ == review_approval_prompt_spec(pr_url@, review_artifact@, path@),
{
    let mut out = owned("Review playbook action: approve this PR through the harness, not through Alinery.\n");
    if pr_url.unicode_len() == 0 {
        push_str(
            &mut out,
            "PR URL: not set in Alinery task metadata; infer it from the checked-out branch/remote if possible.",
        );
    } else {
        push_str(&mut out, "PR URL: ");
        push_str(&mut out, pr_url);
    }
    push_str(&mut out, "\nReview findings artifact: ");
    push_str(&mut out, review_artifact);
    push_str(&mut out, "\nReview findings path: ");
    push_str(&mut out, path);
    push_str(
        &mut out,
        "\nRead the findings artifact. If it contains no blocking work, submit an approving GitHub PR review or comment using your own GitHub capability.\nDo not ask Alinery/the local app to call a GitHub approval API; the approval/comment is harness-owned.\nAfter submitting or deciding not to submit, write or update the review-response artifact with the decision and evidence.",
    );
    out
}

} // verus!
