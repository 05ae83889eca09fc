//! How many tokens a completion may take of a window that it shares with its prompt.

use crate::digits::{self, number_text};
use crate::json::{Json, JsonView};
use crate::text::{self, ends_with, starts_with, trim_end_class, trimmed, CharClass};
use vstd::prelude::*;

verus! {

/// The window of a model that states none.
pub const DEFAULT_EDGE_CONTEXT_WINDOW: usize = 7_968;

/// A completion that cannot have this many tokens is not asked for.
pub const EDGE_MIN_OUTPUT_TOKENS: usize = 256;

/// No completion of a task turn has more tokens than this.
pub const EDGE_MAX_TASK_OUTPUT_TOKENS: usize = 8_192;

/// What the chat template takes besides the request.
pub const EDGE_REQUEST_MARGIN_TOKENS: usize = 1_024;

/// The smallest window that is taken at its word.
pub const EDGE_MIN_CONTEXT_WINDOW: usize = 2_048;

/// The window to reckon with, where `window` was stated.
pub open spec fn window_of(window: Option<usize>) -> usize {
    match window {
        Some(value) => if value >= EDGE_MIN_CONTEXT_WINDOW {
            value
        } else {
            DEFAULT_EDGE_CONTEXT_WINDOW
        },
        None => DEFAULT_EDGE_CONTEXT_WINDOW,
    }
}

/// The window to reckon with: the stated one unless it is missing or too small to be true.
pub fn edge_context_window(window: Option<usize>) -> (value: usize)
    ensures
        value == window_of(window),
        value >= EDGE_MIN_CONTEXT_WINDOW,
{
    match window {
        Some(value) => if value >= EDGE_MIN_CONTEXT_WINDOW {
            value
        } else {
            DEFAULT_EDGE_CONTEXT_WINDOW
        },
        None => DEFAULT_EDGE_CONTEXT_WINDOW,
    }
}

/// The completion length that a request asks for: `max_tokens`, or else
/// `max_completion_tokens`, where that is a number above zero.
pub open spec fn requested_tokens(incoming: JsonView) -> nat {
    let stated = match incoming.field("max_tokens"@) {
        Some(v) => Some(v),
        None => incoming.field("max_completion_tokens"@),
    };
    match stated {
        Some(v) => match v.unsigned() {
            Some(n) => if 0 < n <= usize::MAX {
                n as nat
            } else {
                8_192
            },
            None => 8_192,
        },
        None => 8_192,
    }
}

/// The completion length that a request asks for.
pub fn openai_requested_max_tokens(incoming: &Json) -> (tokens: usize)
    ensures
        tokens == requested_tokens(incoming@),
        tokens > 0,
{
    let stated: Option<&Json> = match incoming.get("max_tokens") {
        Some(v) => Some(v),
        None => incoming.get("max_completion_tokens"),
    };
    match stated {
        Some(v) => match v.as_unsigned() {
            Some(n) => if 0 < n && n <= usize::MAX as u64 {
                n as usize
            } else {
                8_192
            },
            None => 8_192,
        },
        None => 8_192,
    }
}

/// The tokens that a request of `chars` characters is reckoned at: one for every two
/// characters, and the margin.
pub open spec fn estimated_input(chars: usize) -> int {
    (if chars == usize::MAX {
        chars as int
    } else {
        chars + 1
    }) / 2 + EDGE_REQUEST_MARGIN_TOKENS
}

/// The longest completion of a task turn in a window: a quarter of it, within bounds.
pub open spec fn task_cap(window: usize) -> usize {
    if window / 4 < EDGE_MIN_OUTPUT_TOKENS {
        EDGE_MIN_OUTPUT_TOKENS
    } else if window / 4 > EDGE_MAX_TASK_OUTPUT_TOKENS {
        EDGE_MAX_TASK_OUTPUT_TOKENS
    } else {
        window / 4
    }
}

/// The smaller of two numbers.
pub open spec fn least(a: int, b: int) -> int {
    if a <= b {
        a
    } else {
        b
    }
}

/// What the refusal of a request says that leaves no room in its window.
pub open spec fn too_large(window: usize) -> Seq<char> {
    "edge task request is too large for its "@ + digits::decimal(window as nat)
        + "-token shared context window before a completion can be reserved"@
}

/// How many tokens to ask a completion for, where there is room for any.
pub open spec fn budget_of(
    request_chars: usize,
    requested_max_tokens: usize,
    context_window: usize,
) -> Option<int> {
    let window = window_of(Some(context_window));
    let room = window - estimated_input(request_chars);
    if room < EDGE_MIN_OUTPUT_TOKENS {
        None
    } else {
        Some(least(least(requested_max_tokens as int, task_cap(window) as int), room))
    }
}

/// How many tokens to ask a completion for, so that the prompt and the completion fit the
/// window that they share.
pub fn edge_completion_budget(
    request_chars: usize,
    requested_max_tokens: usize,
    context_window: usize,
) -> (budget: Result<usize, String>)
    ensures
        match budget {
            Ok(tokens) => budget_of(request_chars, requested_max_tokens, context_window) == Some(
                tokens as int,
            ),
            Err(_) => budget_of(request_chars, requested_max_tokens, context_window) is None,
        },
        ({
            let window = window_of(Some(context_window));
            let room = window - estimated_input(request_chars);
            match budget {
                Ok(tokens) => room >= EDGE_MIN_OUTPUT_TOKENS && tokens == least(
                    least(requested_max_tokens as int, task_cap(window) as int),
                    room,
                ),
                Err(e) => room < EDGE_MIN_OUTPUT_TOKENS && e@ == too_large(window),
            }
        }),
        budget matches Ok(tokens) ==> {
            &&& tokens <= requested_max_tokens
            &&& tokens <= EDGE_MAX_TASK_OUTPUT_TOKENS
            &&& estimated_input(request_chars) + tokens <= window_of(Some(context_window))
        },
{
    let window: usize = edge_context_window(Some(context_window));
    let quarter: usize = window / 4;
    let cap: usize = if quarter < EDGE_MIN_OUTPUT_TOKENS {
        EDGE_MIN_OUTPUT_TOKENS
    } else if quarter > EDGE_MAX_TASK_OUTPUT_TOKENS {
        EDGE_MAX_TASK_OUTPUT_TOKENS
    } else {
        quarter
    };
    let halved: usize = (if request_chars == usize::MAX {
        request_chars
    } else {
        request_chars + 1
    }) / 2;
    let estimated: usize = halved + EDGE_REQUEST_MARGIN_TOKENS;
    let available: usize = if estimated > window {
        0
    } else {
        window - estimated
    };
    if available < EDGE_MIN_OUTPUT_TOKENS {
        let mut message: String = "edge task request is too large for its ".to_owned();
        message.append(number_text(window as u128).as_str());
        message.append("-token shared context window before a completion can be reserved");
        return Err(message);
    }
    let capped: usize = if requested_max_tokens < cap {
        requested_max_tokens
    } else {
        cap
    };
    Ok(
        if capped < available {
            capped
        } else {
            available
        },
    )
}

/// A worker's address without white space around it and without slashes at its end.
pub open spec fn worker_base(worker_url: Seq<char>) -> Seq<char> {
    text::trim_end_of(text::trim(worker_url), CharClass::Slash)
}

/// Where a worker takes inference requests, or why its address will not do.
pub open spec fn infer_url_of(worker_url: Seq<char>) -> Result<Seq<char>, Seq<char>> {
    let base = worker_base(worker_url);
    if !(text::begins(base, "https://"@) || text::begins(base, "http://"@)) {
        Err("edge worker URL must start with http:// or https://"@)
    } else if text::finishes(base, "/infer"@) {
        Ok(base)
    } else {
        Ok(base + "/infer"@)
    }
}

/// Where a worker takes inference requests: its address with `/infer` at the end.
pub fn edge_infer_url(worker_url: &str) -> (url: Result<String, String>)
    ensures
        text::result_view(url) == infer_url_of(worker_url@),
{
    let base: String = trim_end_class(trimmed(worker_url).as_str(), CharClass::Slash);
    if !(starts_with(base.as_str(), "https://") || starts_with(base.as_str(), "http://")) {
        return Err("edge worker URL must start with http:// or https://".to_owned());
    }
    if ends_with(base.as_str(), "/infer") {
        Ok(base)
    } else {
        Ok(base.concat("/infer"))
    }
}

/// Where a worker takes inference requests is a worker's address too, and the place where
/// that one takes them is the same: asking twice changes nothing.
pub proof fn law_infer_url_stays(worker_url: Seq<char>)
    ensures
        match infer_url_of(worker_url) {
            Ok(url) => infer_url_of(url) == Ok::<Seq<char>, Seq<char>>(url),
            Err(_) => true,
        },
{
    if let Ok(url) = infer_url_of(worker_url) {
        let base = worker_base(worker_url);
        reveal_strlit("/infer");
        reveal_strlit("https://");
        reveal_strlit("http://");
        let end = "/infer"@;
        assert(text::finishes(url, end)) by {
            if !text::finishes(base, end) {
                assert(url.subrange(url.len() - end.len(), url.len() as int) =~= end);
            }
        }
        assert(url.last() == url.subrange(url.len() - end.len(), url.len() as int).last());
        assert(url.last() == 'r');
        if text::begins(base, "https://"@) {
            assert(url.subrange(0, 8) =~= base.subrange(0, 8));
            assert(url.subrange(0, 8)[0] == 'h');
        } else {
            assert(url.subrange(0, 7) =~= base.subrange(0, 7));
            assert(url.subrange(0, 7)[0] == 'h');
        }
        assert(url[0] == 'h');
        assert(text::trim(url) == url);
        assert(worker_base(url) == url);
    }
}

// ---------------------------------------------------------------------------
// Laws
// ---------------------------------------------------------------------------

/// A window of 2048 tokens or more is taken at its word; a smaller one, or none, counts as
/// 7968 tokens.
pub proof fn law_window(value: usize)
    ensures
        value >= 2048 ==> window_of(Some(value)) == value,
        value < 2048 ==> window_of(Some(value)) == 7968,
        window_of(None) == 7968,
{
}

/// A request asks for as many tokens as it says, under the first of two names, and for 8192
/// where it says nothing usable.
pub proof fn law_requested_tokens(n: u64, other: JsonView)
    requires
        0 < n <= usize::MAX,
        other.unsigned() is None,
    ensures
        requested_tokens(
            JsonView::object().put("max_tokens"@, JsonView::number(n as nat)),
        ) == n,
        requested_tokens(
            JsonView::object().put("max_completion_tokens"@, JsonView::number(n as nat)),
        ) == n,
        requested_tokens(
            JsonView::object().put("max_completion_tokens"@, other).put(
                "max_tokens"@,
                JsonView::number(n as nat),
            ),
        ) == n,
        requested_tokens(JsonView::object()) == 8192,
        requested_tokens(JsonView::object().put("max_tokens"@, JsonView::number(0))) == 8192,
        requested_tokens(JsonView::object().put("max_tokens"@, other)) == 8192,
{
    reveal_strlit("max_tokens");
    reveal_strlit("max_completion_tokens");
    assert("max_tokens"@.len() == 10);
    assert("max_completion_tokens"@.len() == 21);
}

/// A request is reckoned at a token for every two characters, rounded up, and 1024 more.
pub proof fn law_estimate(chars: usize)
    requires
        chars < usize::MAX,
    ensures
        chars <= 2 * (estimated_input(chars) - 1024) <= chars + 1,
{
}

/// A task turn gets a quarter of the window, but no less than 256 and no more than 8192
/// tokens.
pub proof fn law_cap(window: usize)
    ensures
        256 <= task_cap(window) <= 8192,
        1024 <= window <= 32768 ==> 4 * task_cap(window) <= window < 4 * task_cap(window) + 4,
        window < 1024 ==> task_cap(window) == 256,
        window > 32768 ==> task_cap(window) == 8192,
{
}

/// The smaller of two numbers is one of them, and no larger than either.
pub proof fn law_least(a: int, b: int)
    ensures
        least(a, b) <= a,
        least(a, b) <= b,
        least(a, b) == a || least(a, b) == b,
{
}

/// A worker's address gets `/infer` at its end, once, whatever slashes and white space stand
/// around it; one that does not start like an address of the web is refused.
pub proof fn law_infer_url(base: Seq<char>)
    requires
        text::begins(base, "https://"@) || text::begins(base, "http://"@),
        !text::is_space(base.last()),
        base.last() != '/',
        !text::finishes(base, "/infer"@),
    ensures
        infer_url_of(base) == Ok::<Seq<char>, Seq<char>>(base + "/infer"@),
        infer_url_of(base + seq!['/']) == Ok::<Seq<char>, Seq<char>>(base + "/infer"@),
        infer_url_of(seq![' '] + base + seq!['/'] + seq!['\n']) == Ok::<Seq<char>, Seq<char>>(
            base + "/infer"@,
        ),
{
    reveal_strlit("https://");
    reveal_strlit("http://");
    let e = Seq::<char>::empty();
    assert(base[0] == 'h') by {
        if text::begins(base, "https://"@) {
            assert(base.subrange(0, 8)[0] == 'h');
        } else {
            assert(base.subrange(0, 7)[0] == 'h');
        }
    }
    text::law_trimming(e, base, e, CharClass::Space);
    assert(e + base + e =~= base);
    text::law_trimming(e, base, e, CharClass::Slash);
    assert(base + e =~= base);
    let slashed = base + seq!['/'];
    text::law_trimming(e, slashed, e, CharClass::Space);
    assert(e + slashed + e =~= slashed);
    text::law_trimming(e, base, seq!['/'], CharClass::Slash);
    text::law_trimming(seq![' '], slashed, seq!['\n'], CharClass::Space);
    assert(seq![' '] + base + seq!['/'] + seq!['\n'] =~= seq![' '] + slashed + seq!['\n']);
}

/// An address that starts neither with `https://` nor with `http://` is refused.
pub proof fn law_other_addresses_are_refused(url: Seq<char>)
    requires
        url.len() > 0,
        !text::is_space(url[0]) && !text::is_space(url.last()),
        url.last() != '/',
        !text::begins(url, "https://"@),
        !text::begins(url, "http://"@),
    ensures
        infer_url_of(url) is Err,
{
    let e = Seq::<char>::empty();
    text::law_trimming(e, url, e, CharClass::Space);
    assert(e + url + e =~= url);
    assert(worker_base(url) == url);
}

/// A completion never gets more than was asked for, more than the window has room for, or more
/// than its cap; it gets one of the three. A longer request gets no more than a shorter one.
pub proof fn law_budget(chars: usize, longer: usize, requested: usize, window: usize)
    requires
        chars <= longer,
    ensures
        budget_of(chars, requested, window) matches Some(tokens) ==> {
            let room = window_of(Some(window)) - estimated_input(chars);
            let cap = task_cap(window_of(Some(window))) as int;
            &&& tokens <= requested && tokens <= room && tokens <= cap
            &&& tokens == requested || tokens == room || tokens == cap
        },
        budget_of(chars, requested, window) is None <==> window_of(Some(window)) - estimated_input(
            chars,
        ) < 256,
        budget_of(longer, requested, window) matches Some(less) ==> budget_of(
            chars,
            requested,
            window,
        ) matches Some(tokens) && less <= tokens,
{
}

} // verus!
