//! Message flattening: an ordered list of role-tagged, possibly multi-part
//! chat messages becomes one single-turn prompt plus the image payloads to
//! resolve, in submission order. Only the latest user turn and the system
//! turns before it are kept.

use vstd::prelude::*;
use crate::api::ApiError;
use crate::text::{
    contains_seq, remove_all, trim_spec, chars_of, vec_contains, remove_all_exec, trim_exec,
    matches_at, count_occ, count_occ_from, lemma_count_none, lemma_count_concat, lemma_no_span,
    lemma_matches_left, lemma_matches_right,
};

verus! {

// ---------------------------------------------------------------------------
// Request data model
// ---------------------------------------------------------------------------

/// An image reference as requests carry it: either a bare URL string or an
/// object wrapping one.
#[derive(Debug)]
pub enum ImagePayload {
    Simple(String),
    Detailed { url: String },
}

/// The URL an image payload names.
pub open spec fn url_spec(p: ImagePayload) -> Seq<char> {
    match p {
        ImagePayload::Simple(u) => u@,
        ImagePayload::Detailed { url } => url@,
    }
}

impl ImagePayload {
    /// The URL this payload names, whichever shape it came in.
    pub fn url(&self) -> (r: &str)
        ensures
            r@ == url_spec(*self),
    {
        match self {
            ImagePayload::Simple(u) => u.as_str(),
            ImagePayload::Detailed { url } => url.as_str(),
        }
    }
}

impl Clone for ImagePayload {
    fn clone(&self) -> (r: Self)
        ensures
            r == *self,
    {
        match self {
            ImagePayload::Simple(u) => ImagePayload::Simple(u.clone()),
            ImagePayload::Detailed { url } => ImagePayload::Detailed { url: url.clone() },
        }
    }
}

/// One typed part of a multi-part message body.
pub enum MessagePart {
    Text { text: String },
    InputText { text: String },
    ImageUrl { image_url: ImagePayload },
    InputImage { image_url: ImagePayload },
}

/// A message body: either a plain string or an ordered list of typed parts.
pub enum MessageContent {
    Text(String),
    Parts(Vec<MessagePart>),
}

impl Default for MessageContent {
    /// An empty plain-text body.
    fn default() -> (r: Self)
        ensures
            r is Text && (match r {
                MessageContent::Text(t) => t@ == Seq::<char>::empty(),
                _ => false,
            }),
    {
        MessageContent::Text(String::new())
    }
}

/// One role-tagged chat message.
pub struct ApiMessage {
    pub role: String,
    pub content: MessageContent,
}

// ---------------------------------------------------------------------------
// Case-insensitive role comparison
// ---------------------------------------------------------------------------

/// ASCII-lowercased code point of `c`.
pub open spec fn low_spec(c: char) -> int {
    if 65 <= c as u32 && c as u32 <= 90 {
        c as u32 + 32
    } else {
        (c as u32) as int
    }
}

/// The two texts are equal up to ASCII case.
pub open spec fn eq_ignore_case(a: Seq<char>, b: Seq<char>) -> bool {
    a.len() == b.len() && forall|i: int| 0 <= i < a.len() ==> low_spec(a[i]) == low_spec(b[i])
}

fn low_char(c: char) -> (r: u32)
    ensures
        r == low_spec(c),
{
    let u = c as u32;
    if 65 <= u && u <= 90 {
        u + 32
    } else {
        u
    }
}

/// Compares two strings ignoring ASCII case.
pub fn str_eq_ignore_case(a: &str, b: &str) -> (r: bool)
    ensures
        r == eq_ignore_case(a@, b@),
{
    let av = chars_of(a);
    let bv = chars_of(b);
    if av.len() != bv.len() {
        return false;
    }
    let mut i: usize = 0;
    while i < av.len()
        invariant
            av@ == a@,
            bv@ == b@,
            av@.len() == bv@.len(),
            i <= av@.len(),
            forall|j: int| 0 <= j < i ==> low_spec(av@[j]) == low_spec(bv@[j]),
        decreases av@.len() - i,
    {
        if low_char(av[i]) != low_char(bv[i]) {
            return false;
        }
        i = i + 1;
    }
    true
}

/// Message roles recognized by the flattener.
pub open spec fn is_user(m: ApiMessage) -> bool {
    eq_ignore_case(m.role@, "user"@)
}

pub open spec fn is_system(m: ApiMessage) -> bool {
    eq_ignore_case(m.role@, "system"@)
}

// ---------------------------------------------------------------------------
// Content flattening
// ---------------------------------------------------------------------------

/// The image-placeholder token. Literal placeholders in supplied text are
/// stripped and re-inserted programmatically, never trusted from input.
pub open spec fn image_tag() -> Seq<char> {
    "<image>"@
}

/// A text fragment cleaned for assembly: placeholders removed, then trimmed.
pub open spec fn clean_text(t: Seq<char>) -> Seq<char> {
    trim_spec(remove_all(t, image_tag()))
}

/// `xs` joined with `sep` between consecutive elements.
pub open spec fn join_with(xs: Seq<Seq<char>>, sep: Seq<char>) -> Seq<char>
    decreases xs.len(),
{
    if xs.len() == 0 {
        Seq::empty()
    } else if xs.len() == 1 {
        xs.first()
    } else {
        xs.first() + sep + join_with(xs.drop_first(), sep)
    }
}

pub proof fn lemma_join_snoc(xs: Seq<Seq<char>>, x: Seq<char>, sep: Seq<char>)
    ensures
        xs.len() == 0 ==> join_with(xs.push(x), sep) == x,
        xs.len() > 0 ==> join_with(xs.push(x), sep) == join_with(xs, sep) + sep + x,
    decreases xs.len(),
{
    if xs.len() == 0 {
        assert(xs.push(x).first() == x);
    } else if xs.len() == 1 {
        assert(xs.push(x).first() == xs.first());
        assert(xs.push(x).drop_first() =~= seq![x]);
        assert(join_with(seq![x], sep) == seq![x].first());
        assert(seq![x].first() == x);
        assert(join_with(xs.push(x), sep) == xs.first() + sep + x);
    } else {
        lemma_join_snoc(xs.drop_first(), x, sep);
        assert(xs.push(x).first() == xs.first());
        assert(xs.push(x).drop_first() =~= xs.drop_first().push(x));
        assert(join_with(xs, sep) + sep + x =~= xs.first() + sep + (join_with(xs.drop_first(), sep)
            + sep + x));
    }
}

/// The cleaned, non-empty texts of the parts, in order.
pub open spec fn parts_texts(ps: Seq<MessagePart>) -> Seq<Seq<char>>
    decreases ps.len(),
{
    if ps.len() == 0 {
        Seq::empty()
    } else {
        let pre = parts_texts(ps.drop_last());
        match ps.last() {
            MessagePart::Text { text } => if clean_text(text@).len() > 0 {
                pre.push(clean_text(text@))
            } else {
                pre
            },
            MessagePart::InputText { text } => if clean_text(text@).len() > 0 {
                pre.push(clean_text(text@))
            } else {
                pre
            },
            _ => pre,
        }
    }
}

/// The image payloads of the parts, in order.
pub open spec fn parts_images(ps: Seq<MessagePart>) -> Seq<ImagePayload>
    decreases ps.len(),
{
    if ps.len() == 0 {
        Seq::empty()
    } else {
        let pre = parts_images(ps.drop_last());
        match ps.last() {
            MessagePart::ImageUrl { image_url } => pre.push(image_url),
            MessagePart::InputImage { image_url } => pre.push(image_url),
            _ => pre,
        }
    }
}

/// The text one message body contributes: a plain string is cleaned; parts
/// are cleaned one by one and the non-empty ones joined with a newline.
pub open spec fn content_text(c: MessageContent) -> Seq<char> {
    match c {
        MessageContent::Text(t) => clean_text(t@),
        MessageContent::Parts(ps) => join_with(parts_texts(ps@), "\n"@),
    }
}

/// The image payloads one message body contributes, in order.
pub open spec fn content_images(c: MessageContent) -> Seq<ImagePayload> {
    match c {
        MessageContent::Text(t) => Seq::empty(),
        MessageContent::Parts(ps) => parts_images(ps@),
    }
}

/// Returns text unchanged: a body already carrying a grounding tag or a
/// recognized instruction steers the model by itself, and the grounding
/// directive is injected only during prompt assembly, never here.
pub fn ensure_grounding_enabled(text: &str) -> (r: String)
    ensures
        r@ == text@,
{
    String::from_str(text)
}

/// Flattens one message body into its cleaned text and its image payloads,
/// preserving part order.
pub fn flatten_content(content: &MessageContent) -> (r: (String, Vec<ImagePayload>))
    ensures
        r.0@ == content_text(*content),
        r.1@ == content_images(*content),
{
    match content {
        MessageContent::Text(t) => {
            let tag = chars_of("<image>");
            proof {
                reveal_strlit("<image>");
            }
            let tv = chars_of(t.as_str());
            let removed = remove_all_exec(t.as_str(), &tv, &tag);
            let rv = chars_of(removed.as_str());
            let trimmed = trim_exec(removed.as_str(), &rv);
            let cleaned = ensure_grounding_enabled(trimmed.as_str());
            (cleaned, Vec::new())
        },
        MessageContent::Parts(parts) => {
            let tag = chars_of("<image>");
            proof {
                reveal_strlit("<image>");
            }
            let mut combined = String::new();
            let ghost mut texts: Seq<Seq<char>> = Seq::empty();
            let mut has_texts: bool = false;
            let mut images: Vec<ImagePayload> = Vec::new();
            let mut i: usize = 0;
            while i < parts.len()
                invariant
                    i <= parts@.len(),
                    tag@ == image_tag(),
                    tag@.len() > 0,
                    texts == parts_texts(parts@.subrange(0, i as int)),
                    has_texts == (texts.len() > 0),
                    combined@ == join_with(texts, "\n"@),
                    images@ == parts_images(parts@.subrange(0, i as int)),
                decreases parts@.len() - i,
            {
                let ghost pre = parts@.subrange(0, i as int);
                proof {
                    assert(parts@.subrange(0, i + 1).drop_last() =~= pre);
                    assert(parts@.subrange(0, i + 1).last() == parts@[i as int]);
                }
                match &parts[i] {
                    MessagePart::Text { text } => {
                        let tv = chars_of(text.as_str());
                        let removed = remove_all_exec(text.as_str(), &tv, &tag);
                        let rv = chars_of(removed.as_str());
                        let cleaned = trim_exec(removed.as_str(), &rv);
                        if !cleaned.as_str().is_empty() {
                            proof {
                                lemma_join_snoc(texts, cleaned@, "\n"@);
                                texts = texts.push(cleaned@);
                            }
                            if has_texts {
                                combined.append("\n");
                            }
                            combined.append(cleaned.as_str());
                            has_texts = true;
                        }
                    },
                    MessagePart::InputText { text } => {
                        let tv = chars_of(text.as_str());
                        let removed = remove_all_exec(text.as_str(), &tv, &tag);
                        let rv = chars_of(removed.as_str());
                        let cleaned = trim_exec(removed.as_str(), &rv);
                        if !cleaned.as_str().is_empty() {
                            proof {
                                lemma_join_snoc(texts, cleaned@, "\n"@);
                                texts = texts.push(cleaned@);
                            }
                            if has_texts {
                                combined.append("\n");
                            }
                            combined.append(cleaned.as_str());
                            has_texts = true;
                        }
                    },
                    MessagePart::ImageUrl { image_url } => {
                        images.push(image_url.clone());
                    },
                    MessagePart::InputImage { image_url } => {
                        images.push(image_url.clone());
                    },
                }
                i = i + 1;
            }
            proof {
                assert(parts@.subrange(0, parts@.len() as int) =~= parts@);
            }
            let processed = ensure_grounding_enabled(combined.as_str());
            (processed, images)
        },
    }
}

// ---------------------------------------------------------------------------
// Prompt assembly
// ---------------------------------------------------------------------------

/// `t` repeated `n` times.
pub open spec fn repeat_seq(t: Seq<char>, n: nat) -> Seq<char>
    decreases n,
{
    if n == 0 {
        Seq::empty()
    } else {
        repeat_seq(t, (n - 1) as nat) + t
    }
}

/// The body already steers the model: it holds a grounding tag, a reference
/// tag, or one of the recognized instruction phrases.
pub open spec fn has_instruction(t: Seq<char>) -> bool {
    ||| contains_seq(t, "<|grounding|>"@)
    ||| contains_seq(t, "<|ref|>"@)
    ||| contains_seq(t, "Free OCR"@)
    ||| contains_seq(t, "Parse the figure"@)
    ||| contains_seq(t, "Locate "@)
}

/// The assembled single-turn prompt. With images: the user marker, one
/// placeholder per image (contiguous, at the head of the turn), then the
/// cleaned body — prefixed by the grounding directive unless the body
/// already steers the model, or replaced by the default markdown directive
/// when empty. Without images: the body unchanged, with no auto-injection.
/// Always terminated by the assistant marker.
pub open spec fn prompt_spec(body: Seq<char>, n_images: nat) -> Seq<char> {
    if n_images > 0 {
        let bc = clean_text(body);
        "<|User|>\n"@ + repeat_seq(image_tag(), n_images) + "\n"@ + (if bc.len() == 0 {
            "<|grounding|>Convert the document to markdown.\n"@
        } else {
            (if !has_instruction(bc) {
                "<|grounding|>"@
            } else {
                Seq::empty()
            }) + bc + (if bc[bc.len() - 1] != '\n' {
                "\n"@
            } else {
                Seq::empty()
            })
        }) + "<|Assistant|>\n"@
    } else {
        "<|User|>\n"@ + (if body.len() > 0 {
            body + (if body[body.len() - 1] != '\n' {
                "\n"@
            } else {
                Seq::empty()
            })
        } else {
            Seq::empty()
        }) + "<|Assistant|>\n"@
    }
}

/// Index of the latest user message at or before `i`.
pub open spec fn last_user_from(msgs: Seq<ApiMessage>, i: int) -> Option<int>
    decreases i + 1,
{
    if i < 0 {
        None
    } else if is_user(msgs[i]) {
        Some(i)
    } else {
        last_user_from(msgs, i - 1)
    }
}

/// Index of the latest user message, if any.
pub open spec fn last_user(msgs: Seq<ApiMessage>) -> Option<int> {
    last_user_from(msgs, msgs.len() - 1)
}

/// The cleaned, non-empty texts of the system messages before `u`, in order.
pub open spec fn sys_sections(msgs: Seq<ApiMessage>, u: int) -> Seq<Seq<char>>
    decreases u,
{
    if u <= 0 {
        Seq::empty()
    } else {
        let pre = sys_sections(msgs, u - 1);
        if is_system(msgs[u - 1]) && content_text(msgs[u - 1].content).len() > 0 {
            pre.push(content_text(msgs[u - 1].content))
        } else {
            pre
        }
    }
}

/// The image payloads of the system messages before `u`, in order.
pub open spec fn sys_images(msgs: Seq<ApiMessage>, u: int) -> Seq<ImagePayload>
    decreases u,
{
    if u <= 0 {
        Seq::empty()
    } else {
        sys_images(msgs, u - 1) + (if is_system(msgs[u - 1]) {
            content_images(msgs[u - 1].content)
        } else {
            Seq::empty()
        })
    }
}

/// All text sections the request contributes: the system sections before the
/// selected user turn, then the user turn's own text when non-empty.
pub open spec fn sections_spec(msgs: Seq<ApiMessage>, u: int) -> Seq<Seq<char>> {
    let ut = content_text(msgs[u].content);
    if ut.len() > 0 {
        sys_sections(msgs, u).push(ut)
    } else {
        sys_sections(msgs, u)
    }
}

/// The combined prompt body: sections joined with a blank line.
pub open spec fn body_spec(msgs: Seq<ApiMessage>, u: int) -> Seq<char> {
    join_with(sections_spec(msgs, u), "\n\n"@)
}

/// All image payloads the request contributes, in submission order.
pub open spec fn images_spec(msgs: Seq<ApiMessage>, u: int) -> Seq<ImagePayload> {
    sys_images(msgs, u) + content_images(msgs[u].content)
}

/// Converts a message list into the single-turn prompt and the image
/// payloads to resolve, in order. Fails when no user message exists or when
/// the selected turn contributes neither text nor images.
pub fn convert_messages(messages: &Vec<ApiMessage>) -> (r: Result<
    (String, Vec<ImagePayload>),
    ApiError,
>)
    ensures
        r is Ok <==> (last_user(messages@) is Some && {
            let u = last_user(messages@)->Some_0;
            body_spec(messages@, u).len() > 0 || images_spec(messages@, u).len() > 0
        }),
        last_user(messages@) is None ==> r is Err && r->Err_0 is BadRequest && crate::api::error_message_spec(r->Err_0)
            == "request must include at least one user message"@,
        last_user(messages@) is Some && r is Err ==> r->Err_0 is BadRequest && crate::api::error_message_spec(
            r->Err_0,
        ) == "user content must include text or images"@,
        r is Ok ==> {
            let u = last_user(messages@)->Some_0;
            &&& r->Ok_0.0@ == prompt_spec(
                body_spec(messages@, u),
                images_spec(messages@, u).len(),
            )
            &&& r->Ok_0.1@ == images_spec(messages@, u)
        },
{
    // Select the latest user turn.
    let mut latest: usize = 0;
    let mut found: bool = false;
    let mut j: usize = messages.len();
    while j > 0 && !found
        invariant
            j <= messages@.len(),
            !found ==> last_user(messages@) == last_user_from(messages@, j as int - 1),
            found ==> latest < messages@.len() && last_user(messages@) == Some(latest as int),
        decreases j, (if found { 0int } else { 1int }),
    {
        if str_eq_ignore_case(messages[j - 1].role.as_str(), "user") {
            latest = j - 1;
            found = true;
        } else {
            j = j - 1;
        }
    }
    if !found {
        return Err(
            ApiError::BadRequest(String::from_str("request must include at least one user message")),
        );
    }
    proof {
        assert(last_user(messages@) == Some(latest as int));
    }
    // Collect the system sections and images before the user turn, in order.
    let mut body = String::new();
    let ghost mut sections: Seq<Seq<char>> = Seq::empty();
    let mut has_sections: bool = false;
    let mut images: Vec<ImagePayload> = Vec::new();
    let mut i: usize = 0;
    while i < latest
        invariant
            latest < messages@.len(),
            i <= latest,
            sections == sys_sections(messages@, i as int),
            has_sections == (sections.len() > 0),
            body@ == join_with(sections, "\n\n"@),
            images@ == sys_images(messages@, i as int),
        decreases latest - i,
    {
        if str_eq_ignore_case(messages[i].role.as_str(), "system") {
            let (text, mut msg_images) = flatten_content(&messages[i].content);
            if !text.as_str().is_empty() {
                proof {
                    lemma_join_snoc(sections, text@, "\n\n"@);
                    sections = sections.push(text@);
                }
                if has_sections {
                    body.append("\n\n");
                }
                body.append(text.as_str());
                has_sections = true;
            }
            images.append(&mut msg_images);
        }
        i = i + 1;
    }
    // Add the user turn's own text and images.
    let (user_text, mut user_images) = flatten_content(&messages[latest].content);
    if !user_text.as_str().is_empty() {
        proof {
            lemma_join_snoc(sections, user_text@, "\n\n"@);
            sections = sections.push(user_text@);
        }
        if has_sections {
            body.append("\n\n");
        }
        body.append(user_text.as_str());
        has_sections = true;
    }
    images.append(&mut user_images);
    proof {
        assert(sections == sections_spec(messages@, latest as int));
        assert(body@ == body_spec(messages@, latest as int));
        assert(images@ == images_spec(messages@, latest as int));
    }
    if body.as_str().is_empty() && images.len() == 0 {
        return Err(
            ApiError::BadRequest(String::from_str("user content must include text or images")),
        );
    }
    // Assemble the prompt.
    let mut prompt = String::from_str("<|User|>\n");
    if images.len() > 0 {
        let tag = chars_of("<image>");
        proof {
            reveal_strlit("<image>");
        }
        let bv = chars_of(body.as_str());
        let removed = remove_all_exec(body.as_str(), &bv, &tag);
        let rv = chars_of(removed.as_str());
        let cleaned = trim_exec(removed.as_str(), &rv);
        let n = images.len();
        let mut k: usize = 0;
        while k < n
            invariant
                k <= n,
                prompt@ == "<|User|>\n"@ + repeat_seq(image_tag(), k as nat),
            decreases n - k,
        {
            prompt.append("<image>");
            proof {
                assert(repeat_seq(image_tag(), (k + 1) as nat) == repeat_seq(image_tag(), k as nat)
                    + image_tag());
                assert(prompt@ =~= "<|User|>\n"@ + repeat_seq(image_tag(), (k + 1) as nat));
            }
            k = k + 1;
        }
        prompt.append("\n");
        if cleaned.as_str().is_empty() {
            prompt.append("<|grounding|>Convert the document to markdown.\n");
        } else {
            let cv = chars_of(cleaned.as_str());
            proof {
                reveal_strlit("<|grounding|>");
                reveal_strlit("<|ref|>");
                reveal_strlit("Free OCR");
                reveal_strlit("Parse the figure");
                reveal_strlit("Locate ");
            }
            let steered = vec_contains(&cv, &chars_of("<|grounding|>")) || vec_contains(
                &cv,
                &chars_of("<|ref|>"),
            ) || vec_contains(&cv, &chars_of("Free OCR")) || vec_contains(
                &cv,
                &chars_of("Parse the figure"),
            ) || vec_contains(&cv, &chars_of("Locate "));
            if !steered {
                prompt.append("<|grounding|>");
            }
            prompt.append(cleaned.as_str());
            if cv[cv.len() - 1] != '\n' {
                prompt.append("\n");
            }
        }
        prompt.append("<|Assistant|>\n");
        proof {
            assert(prompt@ =~= prompt_spec(
                body_spec(messages@, latest as int),
                images_spec(messages@, latest as int).len(),
            ));
        }
        Ok((prompt, images))
    } else {
        let bv = chars_of(body.as_str());
        if bv.len() > 0 {
            prompt.append(body.as_str());
            if bv[bv.len() - 1] != '\n' {
                prompt.append("\n");
            }
        }
        prompt.append("<|Assistant|>\n");
        proof {
            assert(prompt@ =~= prompt_spec(
                body_spec(messages@, latest as int),
                images_spec(messages@, latest as int).len(),
            ));
        }
        Ok((prompt, images))
    }
}

// ---------------------------------------------------------------------------
// Laws of prompt assembly
// ---------------------------------------------------------------------------

/// No occurrence of the pattern spans the junction when the right part opens
/// with a character foreign to every pattern position but the first.
proof fn lemma_no_span_right(a: Seq<char>, b: Seq<char>, pat: Seq<char>)
    requires
        pat.len() > 0,
        b.len() > 0,
        forall|k: int| 1 <= k < pat.len() ==> pat[k] != b[0],
    ensures
        forall|j: int| a.len() - pat.len() < j < a.len() ==> !matches_at(a + b, j, pat),
{
    assert forall|j: int| a.len() - pat.len() < j < a.len() implies !matches_at(a + b, j, pat) by {
        if matches_at(a + b, j, pat) {
            let k = a.len() - j;
            assert((a + b)[j + k] == pat[k]);
            assert((a + b)[a.len() as int] == b[0]);
        }
    }
}

/// A text in which `<` is never followed by `i` holds no placeholder.
proof fn lemma_tag_free(s: Seq<char>)
    requires
        forall|j: int| 0 <= j < s.len() - 1 ==> !((#[trigger] s[j]) == '<' && s[j + 1] == 'i'),
    ensures
        count_occ(s, image_tag()) == 0,
{
    reveal_strlit("<image>");
    lemma_count_none(s, 0, image_tag());
    assert forall|j: int| j >= 0 implies !matches_at(s, j, image_tag()) by {
        if matches_at(s, j, image_tag()) {
            assert(s[j + 0] == image_tag()[0]);
            assert(s[j + 1] == image_tag()[1]);
        }
    }
}

/// The placeholder token repeated `n` times holds exactly `n` occurrences of
/// itself, ends with `>`, and is `7 * n` characters long.
proof fn lemma_repeat_count(n: nat)
    ensures
        count_occ(repeat_seq(image_tag(), n), image_tag()) == n,
        repeat_seq(image_tag(), n).len() == 7 * n,
        n > 0 ==> repeat_seq(image_tag(), n).last() == '>',
    decreases n,
{
    reveal_strlit("<image>");
    let tag = image_tag();
    if n == 0 {
        lemma_count_none(repeat_seq(tag, 0), 0, tag);
    } else {
        lemma_repeat_count((n - 1) as nat);
        let a = repeat_seq(tag, (n - 1) as nat);
        assert(repeat_seq(tag, n) == a + tag);
        assert((a + tag).last() == tag[6]);
        // the token matches itself once and holds no other occurrence
        assert(matches_at(tag, 0, tag));
        assert(count_occ_from(tag, 1, tag) == 0);
        assert(count_occ(tag, tag) == 1);
        if n == 1 {
            assert(a + tag =~= tag);
        } else {
            lemma_no_span(a, tag, tag);
            lemma_count_concat(a, tag, tag, 0);
        }
    }
}

/// The user marker, turn separators, directives, and assistant marker hold
/// no placeholder token.
proof fn lemma_markers_tag_free()
    ensures
        count_occ("<|User|>\n"@, image_tag()) == 0,
        count_occ("\n"@, image_tag()) == 0,
        count_occ("<|grounding|>"@, image_tag()) == 0,
        count_occ("<|grounding|>Convert the document to markdown.\n"@, image_tag()) == 0,
        count_occ("<|Assistant|>\n"@, image_tag()) == 0,
{
    reveal_strlit("<|User|>\n");
    reveal_strlit("\n");
    reveal_strlit("<|grounding|>");
    reveal_strlit("<|grounding|>Convert the document to markdown.\n");
    reveal_strlit("<|Assistant|>\n");
    lemma_tag_free("<|User|>\n"@);
    lemma_tag_free("\n"@);
    lemma_tag_free("<|grounding|>"@);
    lemma_tag_free("<|grounding|>Convert the document to markdown.\n"@);
    lemma_tag_free("<|Assistant|>\n"@);
}

/// The body part of the image branch of the prompt: the directive and the
/// cleaned body, always ending in a newline.
spec fn image_branch_tail(bc: Seq<char>) -> Seq<char> {
    if bc.len() == 0 {
        "<|grounding|>Convert the document to markdown.\n"@
    } else {
        (if !has_instruction(bc) {
            "<|grounding|>"@
        } else {
            Seq::empty()
        }) + bc + (if bc[bc.len() - 1] != '\n' {
            "\n"@
        } else {
            Seq::empty()
        })
    }
}

proof fn lemma_tail_shape(bc: Seq<char>)
    requires
        count_occ(bc, image_tag()) == 0,
    ensures
        count_occ(image_branch_tail(bc), image_tag()) == 0,
        image_branch_tail(bc).len() > 0,
        image_branch_tail(bc).last() == '\n',
{
    reveal_strlit("<image>");
    reveal_strlit("\n");
    reveal_strlit("<|grounding|>");
    reveal_strlit("<|grounding|>Convert the document to markdown.\n");
    lemma_markers_tag_free();
    let tag = image_tag();
    if bc.len() == 0 {
    } else {
        let g: Seq<char> = if !has_instruction(bc) {
            "<|grounding|>"@
        } else {
            Seq::empty()
        };
        let nl: Seq<char> = if bc[bc.len() - 1] != '\n' {
            "\n"@
        } else {
            Seq::empty()
        };
        // g + bc holds no placeholder
        if g.len() == 0 {
            assert(g + bc =~= bc);
        } else {
            lemma_no_span(g, bc, tag);
            lemma_count_concat(g, bc, tag, 0);
        }
        // appending the closing newline adds none
        if nl.len() == 0 {
            assert((g + bc) + nl =~= g + bc);
            assert(image_branch_tail(bc).last() == bc[bc.len() - 1]);
        } else {
            lemma_no_span_right(g + bc, nl, tag);
            lemma_count_concat(g + bc, nl, tag, 0);
            lemma_count_none(nl, 0, tag);
            assert(count_occ(nl, tag) == 0);
            assert(image_branch_tail(bc).last() == nl[0]);
        }
    }
}

/// Placeholder accounting of the assembled prompt: with `n` images and a
/// placeholder-free body the prompt holds exactly `n` placeholder tokens,
/// contiguous by construction; with no images it holds none. (Deleting a
/// literal placeholder from supplied text can splice its surroundings into a
/// brand-new one; bodies where that happens are excluded by the premises.)
pub proof fn lemma_prompt_placeholders(body: Seq<char>, n: nat)
    requires
        n > 0 ==> count_occ(clean_text(body), image_tag()) == 0,
        n == 0 ==> count_occ(body, image_tag()) == 0,
    ensures
        count_occ(prompt_spec(body, n), image_tag()) == n,
{
    reveal_strlit("<image>");
    reveal_strlit("\n");
    reveal_strlit("<|User|>\n");
    reveal_strlit("<|Assistant|>\n");
    lemma_markers_tag_free();
    let tag = image_tag();
    let m1 = "<|User|>\n"@;
    let m3 = "<|Assistant|>\n"@;
    if n > 0 {
        let bc = clean_text(body);
        let r = repeat_seq(tag, n);
        let x = image_branch_tail(bc);
        lemma_repeat_count(n);
        lemma_tail_shape(bc);
        assert(prompt_spec(body, n) == (((m1 + r) + "\n"@) + x) + m3);
        // user marker, then the placeholders
        lemma_no_span(m1, r, tag);
        lemma_count_concat(m1, r, tag, 0);
        assert(count_occ(m1 + r, tag) == n);
        // then the turn separator
        lemma_no_span(m1 + r, "\n"@, tag);
        lemma_count_concat(m1 + r, "\n"@, tag, 0);
        // then the directive and body
        assert(((m1 + r) + "\n"@).last() == '\n');
        lemma_no_span((m1 + r) + "\n"@, x, tag);
        lemma_count_concat((m1 + r) + "\n"@, x, tag, 0);
        // then the assistant marker
        assert((((m1 + r) + "\n"@) + x).last() == x.last());
        lemma_no_span(((m1 + r) + "\n"@) + x, m3, tag);
        lemma_count_concat(((m1 + r) + "\n"@) + x, m3, tag, 0);
    } else {
        let y: Seq<char> = if body.len() > 0 {
            body + (if body[body.len() - 1] != '\n' {
                "\n"@
            } else {
                Seq::empty()
            })
        } else {
            Seq::empty()
        };
        assert(prompt_spec(body, n) == (m1 + y) + m3);
        if body.len() > 0 {
            let nl: Seq<char> = if body[body.len() - 1] != '\n' {
                "\n"@
            } else {
                Seq::empty()
            };
            if nl.len() == 0 {
                assert(y =~= body);
            } else {
                lemma_no_span_right(body, nl, tag);
                lemma_count_concat(body, nl, tag, 0);
                lemma_count_none(nl, 0, tag);
            }
            assert(count_occ(y, tag) == 0);
            assert(y.last() == '\n' || y.last() == body[body.len() - 1]);
            lemma_no_span(m1, y, tag);
            lemma_count_concat(m1, y, tag, 0);
            lemma_no_span_right(m1 + y, m3, tag);
            lemma_count_concat(m1 + y, m3, tag, 0);
        } else {
            assert(m1 + y =~= m1);
            lemma_no_span(m1, m3, tag);
            lemma_count_concat(m1, m3, tag, 0);
            assert((m1 + y) + m3 =~= m1 + m3);
        }
    }
}

/// A text in which `<` is never followed two places later by `g` holds no
/// grounding directive.
proof fn lemma_grounding_free(s: Seq<char>)
    requires
        forall|j: int| 0 <= j < s.len() - 2 ==> !((#[trigger] s[j]) == '<' && s[j + 2] == 'g'),
    ensures
        count_occ(s, "<|grounding|>"@) == 0,
{
    reveal_strlit("<|grounding|>");
    let g = "<|grounding|>"@;
    lemma_count_none(s, 0, g);
    assert forall|j: int| j >= 0 implies !matches_at(s, j, g) by {
        if matches_at(s, j, g) {
            assert(s[j + 0] == g[0]);
            assert(s[j + 2] == g[2]);
        }
    }
}

/// Each position of the repeated placeholder token holds the token's
/// character at that offset.
proof fn lemma_repeat_index(n: nat)
    ensures
        repeat_seq(image_tag(), n).len() == 7 * n,
        forall|j: int|
            0 <= j < 7 * n ==> #[trigger] repeat_seq(image_tag(), n)[j] == image_tag()[j % 7],
    decreases n,
{
    reveal_strlit("<image>");
    if n > 0 {
        lemma_repeat_index((n - 1) as nat);
        let a = repeat_seq(image_tag(), (n - 1) as nat);
        assert(repeat_seq(image_tag(), n) == a + image_tag());
        assert forall|j: int|
            0 <= j < 7 * n implies #[trigger] repeat_seq(image_tag(), n)[j] == image_tag()[j
            % 7] by {
            if j < 7 * (n - 1) {
                assert((a + image_tag())[j] == a[j]);
            } else {
                let r = j - 7 * (n - 1);
                assert((a + image_tag())[j] == image_tag()[r]);
                vstd::arithmetic::div_mod::lemma_mod_multiples_vanish(n - 1, r, 7);
                vstd::arithmetic::div_mod::lemma_small_mod(r as nat, 7);
            }
        }
    }
}

/// The repeated placeholder token holds no grounding directive.
proof fn lemma_repeat_grounding_free(n: nat)
    ensures
        count_occ(repeat_seq(image_tag(), n), "<|grounding|>"@) == 0,
{
    reveal_strlit("<image>");
    reveal_strlit("<|grounding|>");
    let g = "<|grounding|>"@;
    let r = repeat_seq(image_tag(), n);
    lemma_repeat_index(n);
    lemma_count_none(r, 0, g);
    assert forall|j: int| j >= 0 implies !matches_at(r, j, g) by {
        if matches_at(r, j, g) {
            assert(r[j + 0] == g[0]);
            assert(image_tag()[j % 7] == '<');
            assert(j % 7 == 0) by {
                if j % 7 != 0 {
                    assert(image_tag()[j % 7] != '<');
                }
            }
            assert(r[j + 1] == g[1]);
            assert((j + 1) % 7 == 1) by {
                vstd::arithmetic::div_mod::lemma_fundamental_div_mod(j, 7);
                vstd::arithmetic::div_mod::lemma_mod_multiples_vanish(j / 7, 1, 7);
                vstd::arithmetic::div_mod::lemma_small_mod(1, 7);
            }
            assert(image_tag()[1] == 'i');
        }
    }
}

/// The turn markers hold no grounding directive.
proof fn lemma_markers_grounding_free()
    ensures
        count_occ("<|User|>\n"@, "<|grounding|>"@) == 0,
        count_occ("\n"@, "<|grounding|>"@) == 0,
        count_occ("<|Assistant|>\n"@, "<|grounding|>"@) == 0,
{
    reveal_strlit("<|User|>\n");
    reveal_strlit("\n");
    reveal_strlit("<|Assistant|>\n");
    reveal_strlit("<|grounding|>");
    lemma_grounding_free("<|User|>\n"@);
    lemma_grounding_free("\n"@);
    lemma_grounding_free("<|Assistant|>\n"@);
}

/// With no images, prompt assembly injects no grounding directive: the
/// prompt holds exactly the occurrences the body already had.
pub proof fn lemma_prompt_grounding_zero_images(body: Seq<char>)
    ensures
        count_occ(prompt_spec(body, 0), "<|grounding|>"@) == count_occ(body, "<|grounding|>"@),
{
    reveal_strlit("<|grounding|>");
    reveal_strlit("\n");
    reveal_strlit("<|User|>\n");
    reveal_strlit("<|Assistant|>\n");
    lemma_markers_grounding_free();
    let g = "<|grounding|>"@;
    let m1 = "<|User|>\n"@;
    let m3 = "<|Assistant|>\n"@;
    let y: Seq<char> = if body.len() > 0 {
        body + (if body[body.len() - 1] != '\n' {
            "\n"@
        } else {
            Seq::empty()
        })
    } else {
        Seq::empty()
    };
    assert(prompt_spec(body, 0) == (m1 + y) + m3);
    if body.len() > 0 {
        let nl: Seq<char> = if body[body.len() - 1] != '\n' {
            "\n"@
        } else {
            Seq::empty()
        };
        if nl.len() == 0 {
            assert(y =~= body);
        } else {
            lemma_no_span_right(body, nl, g);
            lemma_count_concat(body, nl, g, 0);
        }
        assert(count_occ(y, g) == count_occ(body, g));
        lemma_no_span(m1, y, g);
        lemma_count_concat(m1, y, g, 0);
        lemma_no_span_right(m1 + y, m3, g);
        lemma_count_concat(m1 + y, m3, g, 0);
    } else {
        assert(count_occ(body, g) == 0) by {
            lemma_count_none(body, 0, g);
        }
        assert(m1 + y =~= m1);
        lemma_no_span(m1, m3, g);
        lemma_count_concat(m1, m3, g, 0);
        assert((m1 + y) + m3 =~= m1 + m3);
    }
}

/// With images present and a recognized instruction in the cleaned body,
/// prompt assembly injects no grounding directive: the prompt holds exactly
/// the occurrences the cleaned body already had.
pub proof fn lemma_prompt_grounding_suppressed(body: Seq<char>, n: nat)
    requires
        n > 0,
        has_instruction(clean_text(body)),
    ensures
        count_occ(prompt_spec(body, n), "<|grounding|>"@) == count_occ(
            clean_text(body),
            "<|grounding|>"@,
        ),
{
    reveal_strlit("<|grounding|>");
    reveal_strlit("\n");
    reveal_strlit("<|User|>\n");
    reveal_strlit("<|Assistant|>\n");
    reveal_strlit("<image>");
    lemma_markers_grounding_free();
    lemma_repeat_grounding_free(n);
    lemma_repeat_count(n);
    let g = "<|grounding|>"@;
    let m1 = "<|User|>\n"@;
    let m3 = "<|Assistant|>\n"@;
    let bc = clean_text(body);
    let r = repeat_seq(image_tag(), n);
    let x = image_branch_tail(bc);
    assert(prompt_spec(body, n) == (((m1 + r) + "\n"@) + x) + m3);
    // a recognized instruction needs characters, so the cleaned body is
    // non-empty and the tail is the body plus its closing newline
    assert(bc.len() > 0) by {
        if bc.len() == 0 {
            assert(!has_instruction(bc)) by {
                assert forall|p: Seq<char>, j: int|
                    p.len() > 0 implies !matches_at(bc, j, p) by {}
                reveal_strlit("<|ref|>");
                reveal_strlit("Free OCR");
                reveal_strlit("Parse the figure");
                reveal_strlit("Locate ");
            }
        }
    }
    let nl: Seq<char> = if bc[bc.len() - 1] != '\n' {
        "\n"@
    } else {
        Seq::empty()
    };
    assert(x == (Seq::<char>::empty() + bc) + nl);
    assert(Seq::<char>::empty() + bc =~= bc);
    assert(x == bc + nl);
    if nl.len() == 0 {
        assert(x =~= bc);
    } else {
        lemma_no_span_right(bc, nl, g);
        lemma_count_concat(bc, nl, g, 0);
    }
    assert(count_occ(x, g) == count_occ(bc, g));
    // assemble: marker, placeholders, separator, tail, marker
    lemma_no_span(m1, r, g);
    lemma_count_concat(m1, r, g, 0);
    assert((m1 + r).last() == image_tag()[6]);
    lemma_no_span(m1 + r, "\n"@, g);
    lemma_count_concat(m1 + r, "\n"@, g, 0);
    assert(((m1 + r) + "\n"@).last() == '\n');
    lemma_no_span((m1 + r) + "\n"@, x, g);
    lemma_count_concat((m1 + r) + "\n"@, x, g, 0);
    lemma_no_span_right(((m1 + r) + "\n"@) + x, m3, g);
    lemma_count_concat(((m1 + r) + "\n"@) + x, m3, g, 0);
}

/// With images present and no recognized instruction in the cleaned body,
/// the assembled prompt carries the grounding directive.
pub proof fn lemma_prompt_grounding(body: Seq<char>, n: nat)
    requires
        n > 0,
        !has_instruction(clean_text(body)),
    ensures
        contains_seq(prompt_spec(body, n), "<|grounding|>"@),
{
    reveal_strlit("<|grounding|>");
    reveal_strlit("<|grounding|>Convert the document to markdown.\n");
    let g = "<|grounding|>"@;
    let bc = clean_text(body);
    let m1 = "<|User|>\n"@;
    let m3 = "<|Assistant|>\n"@;
    let r = repeat_seq(image_tag(), n);
    let x = image_branch_tail(bc);
    let a = (m1 + r) + "\n"@;
    assert(prompt_spec(body, n) == (a + x) + m3);
    // the tail opens with the directive
    assert(matches_at(x, 0, g)) by {
        if bc.len() == 0 {
            assert(forall|k: int|
                0 <= k < g.len() ==> "<|grounding|>Convert the document to markdown.\n"@[k]
                    == g[k]);
        } else {
            assert forall|k: int| 0 <= k < g.len() implies x[k] == g[k] by {
                assert((g + bc)[k] == g[k]);
            }
        }
    }
    lemma_matches_right(a, x, g, 0);
    lemma_matches_left(a + x, m3, g, a.len() as int);
}

} // verus!
