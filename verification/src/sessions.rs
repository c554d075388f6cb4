//! Signed-in viewers: the tokens they hold and the cookie that carries them.

use vstd::hash_map::StringHashMap;
use vstd::prelude::*;
use vstd::string::*;

use crate::config::{alphanumeric, random_alphanumeric};
use crate::text::{characters, from_characters, has_prefix};

verus! {

/// Length of a session token.
pub const TOKEN_LENGTH: usize = 48;

/// How long a session lasts, in nanoseconds.
pub const SESSION_LIFETIME: u128 = 86_400_000_000_000;

/// The name of the cookie, with the sign that ends it.
pub const COOKIE_PREFIX: &'static str = "beam_session=";

/// What follows the token in the header that sets the cookie.
pub const COOKIE_ATTRIBUTES: &'static str =
    "; Secure; HttpOnly; SameSite=Strict; Path=/; Max-Age=86400";

/// A space or a tab.
pub open spec fn is_blank(c: char) -> bool {
    c == ' ' || c == '\t'
}

/// The text without the blanks at its ends.
pub open spec fn trimmed(text: Seq<char>) -> Seq<char>
    decreases text.len(),
{
    if text.len() == 0 {
        text
    } else if is_blank(text.first()) {
        trimmed(text.drop_first())
    } else if is_blank(text.last()) {
        trimmed(text.drop_last())
    } else {
        text
    }
}

/// The length of the text up to its first semicolon, or of all of it.
pub open spec fn field_length(text: Seq<char>) -> nat
    decreases text.len(),
{
    if text.len() == 0 || text.first() == ';' {
        0
    } else {
        1 + field_length(text.drop_first())
    }
}

/// The value of the first field, between semicolons and without blanks around it, that is our
/// cookie.
pub open spec fn session_token(cookies: Seq<char>) -> Option<Seq<char>>
    decreases cookies.len(),
{
    let length = field_length(cookies);
    let field = trimmed(cookies.take(length as int));
    if has_prefix(field, COOKIE_PREFIX@) {
        Some(field.skip(COOKIE_PREFIX@.len() as int))
    } else if length >= cookies.len() {
        None
    } else {
        session_token(cookies.skip(length + 1int))
    }
}

/// A token with one of these characters could not be read back from a cookie.
pub open spec fn plain(token: Seq<char>) -> bool {
    forall|i: int|
        0 <= i < token.len() ==> #[trigger] token[i] != ';' && !is_blank(token[i])
}

proof fn lemma_field_length(text: Seq<char>, length: nat)
    requires
        length <= text.len(),
        forall|i: int| 0 <= i < length ==> #[trigger] text[i] != ';',
        length < text.len() ==> text[length as int] == ';',
    ensures
        field_length(text) == length,
    decreases text.len(),
{
    if length > 0 {
        let rest = text.drop_first();
        assert forall|i: int| 0 <= i < length - 1 implies #[trigger] rest[i] != ';' by {
            assert(rest[i] == text[i + 1]);
        }
        lemma_field_length(rest, (length - 1) as nat);
    }
}

proof fn lemma_field_length_bound(text: Seq<char>)
    ensures
        field_length(text) <= text.len(),
        field_length(text) < text.len() ==> text[field_length(text) as int] == ';',
        forall|i: int| 0 <= i < field_length(text) ==> #[trigger] text[i] != ';',
    decreases text.len(),
{
    if text.len() > 0 && text.first() != ';' {
        let rest = text.drop_first();
        lemma_field_length_bound(rest);
        assert forall|i: int| 0 <= i < field_length(text) implies #[trigger] text[i] != ';' by {
            if i > 0 {
                assert(rest[i - 1] == text[i]);
            }
        }
    }
}

/// The text of a cookie header that holds one session token and nothing else.
pub open spec fn session_cookie(token: Seq<char>) -> Seq<char> {
    COOKIE_PREFIX@ + token
}

proof fn lemma_cookie_is_plain(token: Seq<char>)
    requires
        plain(token),
    ensures
        plain(session_cookie(token)),
        trimmed(session_cookie(token)) == session_cookie(token),
        has_prefix(session_cookie(token), COOKIE_PREFIX@),
        session_cookie(token).skip(COOKIE_PREFIX@.len() as int) == token,
{
    reveal_strlit("beam_session=");
    let cookie = session_cookie(token);
    assert forall|i: int| 0 <= i < cookie.len() implies #[trigger] cookie[i] != ';' && !is_blank(
        cookie[i],
    ) by {
        if i >= COOKIE_PREFIX@.len() {
            assert(cookie[i] == token[i - COOKIE_PREFIX@.len()]);
        }
    }
    assert(cookie.take(COOKIE_PREFIX@.len() as int) =~= COOKIE_PREFIX@);
    assert(cookie.skip(COOKIE_PREFIX@.len() as int) =~= token);
    assert(!is_blank(cookie[0]) && !is_blank(cookie[cookie.len() - 1]));
}

/// The token comes back out of the cookie that carries it, alone or followed by other cookies.
pub proof fn law_cookie_carries_token(token: Seq<char>, others: Seq<char>)
    requires
        plain(token),
    ensures
        session_token(session_cookie(token)) == Some(token),
        session_token(session_cookie(token) + seq![';'] + others) == Some(token),
{
    let cookie = session_cookie(token);
    let text = cookie + seq![';'] + others;
    lemma_cookie_is_plain(token);
    lemma_field_length(cookie, cookie.len());
    assert(cookie.take(cookie.len() as int) =~= cookie);
    assert forall|i: int| 0 <= i < cookie.len() implies #[trigger] text[i] != ';' by {
        assert(text[i] == cookie[i]);
    }
    lemma_field_length(text, cookie.len());
    assert(text.take(cookie.len() as int) =~= cookie);
}

/// Cookies of other names, ahead of ours, do not matter.
pub proof fn law_other_cookies_are_skipped(others: Seq<char>, cookies: Seq<char>)
    requires
        session_token(others) is None,
    ensures
        session_token(others + seq![';'] + cookies) == session_token(cookies),
    decreases others.len(),
{
    let text = others + seq![';'] + cookies;
    let length = field_length(others);
    lemma_field_length_bound(others);
    assert forall|i: int| 0 <= i < length implies #[trigger] text[i] != ';' by {
        assert(text[i] == others[i]);
    }
    assert(text[length as int] == ';') by {
        if length < others.len() {
            assert(text[length as int] == others[length as int]);
        }
    }
    lemma_field_length(text, length);
    assert(text.take(length as int) =~= others.take(length as int));
    if length < others.len() {
        law_other_cookies_are_skipped(others.skip(length + 1int), cookies);
        assert(text.skip(length + 1int) =~= others.skip(length + 1int) + seq![';'] + cookies);
    } else {
        assert(text.skip(length + 1int) =~= cookies);
    }
}

/// A generated token can be read back from a cookie.
pub proof fn law_generated_tokens_are_plain(token: Seq<char>)
    requires
        alphanumeric(token),
    ensures
        plain(token),
{
    assert forall|i: int| 0 <= i < token.len() implies #[trigger] token[i] != ';' && !is_blank(
        token[i],
    ) by {
        assert(crate::config::is_alphanumeric(token[i]));
    }
}

/// The part of `chars[start..end]` that is left when blanks are taken from its ends.
fn trim(chars: &Vec<char>, start: usize, end: usize) -> (range: (usize, usize))
    requires
        start <= end <= chars@.len(),
    ensures
        start <= range.0 <= range.1 <= end,
        chars@.subrange(range.0 as int, range.1 as int) == trimmed(
            chars@.subrange(start as int, end as int),
        ),
{
    let ghost whole = chars@.subrange(start as int, end as int);
    let mut low: usize = start;
    let mut high: usize = end;
    while low < high && (chars[low] == ' ' || chars[low] == '\t')
        invariant
            start <= low <= high,
            high == end,
            end <= chars@.len(),
            trimmed(chars@.subrange(low as int, high as int)) == trimmed(whole),
        decreases high - low,
    {
        assert(chars@.subrange(low as int, high as int).drop_first() =~= chars@.subrange(
            low + 1,
            high as int,
        ));
        low += 1;
    }
    while low < high && (chars[high - 1] == ' ' || chars[high - 1] == '\t')
        invariant
            start <= low <= high <= end,
            end <= chars@.len(),
            low < high ==> !is_blank(chars@[low as int]),
            trimmed(chars@.subrange(low as int, high as int)) == trimmed(whole),
        decreases high - low,
    {
        assert(chars@.subrange(low as int, high as int).drop_last() =~= chars@.subrange(
            low as int,
            high - 1,
        ));
        high -= 1;
    }
    (low, high)
}

/// Whether `chars[start..end]` begins with the cookie's name.
fn names_cookie(chars: &Vec<char>, start: usize, end: usize, prefix: &Vec<char>) -> (yes: bool)
    requires
        start <= end <= chars@.len(),
    ensures
        yes == has_prefix(chars@.subrange(start as int, end as int), prefix@),
{
    let ghost field = chars@.subrange(start as int, end as int);
    if end - start < prefix.len() {
        return false;
    }
    let mut i: usize = 0;
    while i < prefix.len()
        invariant
            i <= prefix@.len(),
            start + prefix@.len() <= end <= chars.len(),
            field == chars@.subrange(start as int, end as int),
            forall|j: int| 0 <= j < i ==> field[j] == prefix@[j],
        decreases prefix@.len() - i,
    {
        if chars[start + i] != prefix[i] {
            assert(field.take(prefix@.len() as int)[i as int] != prefix@[i as int]);
            return false;
        }
        i += 1;
    }
    assert(field.take(prefix@.len() as int) =~= prefix@);
    true
}

/// Reads the session token out of the text of a cookie header.
pub fn find_token(cookies: &str) -> (token: Option<String>)
    ensures
        match token {
            Some(text) => session_token(cookies@) == Some(text@),
            None => session_token(cookies@) is None,
        },
{
    let chars: Vec<char> = characters(cookies);
    let prefix: Vec<char> = characters(COOKIE_PREFIX);
    let mut start: usize = 0;
    assert(cookies@.skip(0) =~= cookies@);
    loop
        invariant
            chars@ == cookies@,
            prefix@ == COOKIE_PREFIX@,
            start <= chars@.len(),
            session_token(cookies@) == session_token(cookies@.skip(start as int)),
        decreases chars@.len() - start,
    {
        let ghost rest = cookies@.skip(start as int);
        let mut end: usize = start;
        while end < chars.len() && chars[end] != ';'
            invariant
                start <= end <= chars@.len(),
                chars@ == cookies@,
                rest == cookies@.skip(start as int),
                forall|i: int| 0 <= i < end - start ==> #[trigger] rest[i] != ';',
            decreases chars@.len() - end,
        {
            end += 1;
        }
        proof {
            lemma_field_length(rest, (end - start) as nat);
            assert(rest.take(end - start) =~= chars@.subrange(start as int, end as int));
        }
        let (low, high): (usize, usize) = trim(&chars, start, end);
        let ghost field = chars@.subrange(low as int, high as int);
        if names_cookie(&chars, low, high, &prefix) {
            let value: &[char] = vstd::slice::slice_subrange(
                chars.as_slice(),
                low + prefix.len(),
                high,
            );
            assert(value@ =~= field.skip(prefix@.len() as int));
            return Some(from_characters(value));
        }
        if end == chars.len() {
            return None;
        }
        assert(rest.skip(end - start + 1) =~= cookies@.skip(end + 1));
        start = end + 1;
    }
}

/// The sessions that viewers have opened: each token with the time at which it expires, in
/// nanoseconds on a clock that starts anywhere.
pub struct Sessions {
    pub expiries: StringHashMap<u128>,
}

/// The cookie header names a session that has not expired at `now`.
pub open spec fn admits(
    expiries: Map<Seq<char>, u128>,
    cookies: Option<Seq<char>>,
    now: u128,
) -> bool {
    match cookies {
        Some(text) => match session_token(text) {
            Some(token) => expiries.contains_key(token) && expiries[token] > now,
            None => false,
        },
        None => false,
    }
}

impl Sessions {
    pub fn new() -> (sessions: Sessions)
        ensures
            sessions.expiries@ == Map::<Seq<char>, u128>::empty(),
    {
        Sessions { expiries: StringHashMap::new() }
    }

    /// Opens a session under the given token and returns the header value that sets its cookie.
    pub fn open_with(&mut self, token: String, now: u128) -> (cookie: String)
        requires
            now + SESSION_LIFETIME <= u128::MAX,
        ensures
            final(self).expiries@ == old(self).expiries@.insert(
                token@,
                (now + SESSION_LIFETIME) as u128,
            ),
            cookie@ == session_cookie(token@) + COOKIE_ATTRIBUTES@,
    {
        let mut cookie: String = COOKIE_PREFIX.to_owned();
        cookie.append(token.as_str());
        cookie.append(COOKIE_ATTRIBUTES);
        self.expiries.insert(token, now + SESSION_LIFETIME);
        cookie
    }

    /// Opens a session under a random token.
    pub fn open(&mut self, now: u128) -> (cookie: String)
        requires
            now + SESSION_LIFETIME <= u128::MAX,
        ensures
            exists|token: Seq<char>|
                {
                    &&& token.len() == TOKEN_LENGTH
                    &&& alphanumeric(token)
                    &&& final(self).expiries@ == old(self).expiries@.insert(
                        token,
                        (now + SESSION_LIFETIME) as u128,
                    )
                    &&& cookie@ == #[trigger] session_cookie(token) + COOKIE_ATTRIBUTES@
                },
    {
        let token: String = random_alphanumeric(TOKEN_LENGTH);
        let ghost text = token@;
        let cookie: String = self.open_with(token, now);
        assert(cookie@ == session_cookie(text) + COOKIE_ATTRIBUTES@);
        cookie
    }

    /// Whether a request with this cookie header comes from a signed-in viewer.
    pub fn is_signed_in(&self, cookies: Option<&str>, now: u128) -> (signed_in: bool)
        ensures
            signed_in == admits(
                self.expiries@,
                match cookies {
                    Some(text) => Some(text@),
                    None => None,
                },
                now,
            ),
    {
        let text: &str = match cookies {
            Some(text) => text,
            None => return false,
        };
        let token: String = match find_token(text) {
            Some(token) => token,
            None => return false,
        };
        match self.expiries.get(token.as_str()) {
            Some(expiry) => *expiry > now,
            None => false,
        }
    }

    /// Ends every session.
    pub fn clear(&mut self)
        ensures
            final(self).expiries@ == Map::<Seq<char>, u128>::empty(),
    {
        self.expiries.clear();
    }
}

/// The text holds blanks only.
pub open spec fn blank(text: Seq<char>) -> bool {
    forall|i: int| 0 <= i < text.len() ==> is_blank(#[trigger] text[i])
}

proof fn lemma_trimmed_ahead(gap: Seq<char>, text: Seq<char>)
    requires
        blank(gap),
    ensures
        trimmed(gap + text) == trimmed(text),
    decreases gap.len(),
{
    if gap.len() == 0 {
        assert(gap + text =~= text);
    } else {
        assert(is_blank(gap[0]));
        assert((gap + text).first() == gap[0]);
        assert((gap + text).drop_first() =~= gap.drop_first() + text);
        assert forall|i: int| 0 <= i < gap.drop_first().len() implies is_blank(
            #[trigger] gap.drop_first()[i],
        ) by {
            assert(is_blank(gap[i + 1]));
        }
        lemma_trimmed_ahead(gap.drop_first(), text);
    }
}

/// Blanks ahead of our cookie do not matter, whether others follow it or not.
pub proof fn law_blanks_are_skipped(gap: Seq<char>, token: Seq<char>, others: Seq<char>)
    requires
        blank(gap),
        plain(token),
    ensures
        session_token(gap + session_cookie(token)) == Some(token),
        session_token(gap + session_cookie(token) + seq![';'] + others) == Some(token),
{
    let cookie = session_cookie(token);
    let field = gap + cookie;
    let text = field + seq![';'] + others;
    lemma_cookie_is_plain(token);
    lemma_trimmed_ahead(gap, cookie);
    assert forall|i: int| 0 <= i < field.len() implies #[trigger] field[i] != ';' by {
        if i < gap.len() {
            assert(is_blank(gap[i]));
        } else {
            assert(field[i] == cookie[i - gap.len()]);
        }
    }
    lemma_field_length(field, field.len());
    assert(field.take(field.len() as int) =~= field);
    assert forall|i: int| 0 <= i < field.len() implies #[trigger] text[i] != ';' by {
        assert(text[i] == field[i]);
    }
    lemma_field_length(text, field.len());
    assert(text.take(field.len() as int) =~= field);
}

/// A viewer who was given a token at `opened` is admitted with its cookie, sent ahead of or
/// behind others, with blanks between them or not, for exactly as long as the session lasts, and
/// the sessions of others are as they were.
pub proof fn law_session_lifetime(
    expiries: Map<Seq<char>, u128>,
    token: Seq<char>,
    opened: u128,
    now: u128,
    ahead: Seq<char>,
    gap: Seq<char>,
    behind: Seq<char>,
    other: Seq<char>,
)
    requires
        plain(token),
        blank(gap),
        opened + SESSION_LIFETIME <= u128::MAX,
        session_token(ahead) is None,
        plain(other),
        other != token,
    ensures
        ({
            let after = expiries.insert(token, (opened + SESSION_LIFETIME) as u128);
            let valid = now < opened + SESSION_LIFETIME;
            let cookie = session_cookie(token);
            &&& admits(after, Some(cookie), now) == valid
            &&& admits(after, Some(cookie + seq![';'] + behind), now) == valid
            &&& admits(after, Some(ahead + seq![';'] + cookie), now) == valid
            &&& admits(after, Some(ahead + seq![';'] + (gap + cookie)), now) == valid
            &&& admits(
                after,
                Some(ahead + seq![';'] + (gap + cookie + seq![';'] + behind)),
                now,
            ) == valid
            &&& admits(after, Some(session_cookie(other)), now) == admits(
                expiries,
                Some(session_cookie(other)),
                now,
            )
        }),
{
    law_cookie_carries_token(token, behind);
    law_cookie_carries_token(other, behind);
    law_other_cookies_are_skipped(ahead, session_cookie(token));
    law_blanks_are_skipped(gap, token, behind);
    law_other_cookies_are_skipped(ahead, gap + session_cookie(token));
    law_other_cookies_are_skipped(ahead, gap + session_cookie(token) + seq![';'] + behind);
}

/// Once every session has been ended, no cookie admits anyone.
pub proof fn law_cleared_sessions_admit_nobody(cookies: Option<Seq<char>>, now: u128)
    ensures
        !admits(Map::<Seq<char>, u128>::empty(), cookies, now),
{
}

/// What happens to the sessions.
pub enum SessionChange {
    /// A viewer signs in and is given a token.
    SignIn { token: Seq<char>, at: u128 },
    /// New settings are put into effect.
    Settings,
    /// A sign-in or new settings are refused, or a request is checked.
    Nothing,
}

/// The sessions that a change leaves.
pub open spec fn changed(expiries: Map<Seq<char>, u128>, change: SessionChange) -> Map<
    Seq<char>,
    u128,
> {
    match change {
        SessionChange::SignIn { token, at } => expiries.insert(
            token,
            (at + SESSION_LIFETIME) as u128,
        ),
        SessionChange::Settings => Map::empty(),
        SessionChange::Nothing => expiries,
    }
}

/// The sessions that a row of changes leaves.
pub open spec fn changed_by_all(
    expiries: Map<Seq<char>, u128>,
    changes: Seq<SessionChange>,
) -> Map<Seq<char>, u128>
    decreases changes.len(),
{
    if changes.len() == 0 {
        expiries
    } else {
        changed(changed_by_all(expiries, changes.drop_last()), changes.last())
    }
}

/// New settings are put into effect in the row.
pub open spec fn settings_changed(changes: Seq<SessionChange>) -> bool {
    exists|i: int| 0 <= i < changes.len() && #[trigger] changes[i] is Settings
}

/// Nobody is given this token in the row.
pub open spec fn not_given(changes: Seq<SessionChange>, token: Seq<char>) -> bool {
    forall|i: int|
        0 <= i < changes.len() ==> !(#[trigger] changes[i] matches SessionChange::SignIn {
            token: other,
            at: _,
        } && other == token)
}

/// A session stays as it is whatever happens, until new settings end it.
pub proof fn law_only_settings_end_sessions(
    expiries: Map<Seq<char>, u128>,
    changes: Seq<SessionChange>,
    token: Seq<char>,
)
    requires
        expiries.contains_key(token),
        not_given(changes, token),
    ensures
        changed_by_all(expiries, changes).contains_key(token) <==> !settings_changed(changes),
        !settings_changed(changes) ==> changed_by_all(expiries, changes)[token] == expiries[token],
    decreases changes.len(),
{
    if changes.len() > 0 {
        let earlier = changes.drop_last();
        assert forall|i: int| 0 <= i < earlier.len() implies !(#[trigger] earlier[i] matches
            SessionChange::SignIn { token: other, at: _ } && other == token) by {
            assert(earlier[i] == changes[i]);
        }
        law_only_settings_end_sessions(expiries, earlier, token);
        assert(changes.last() == changes[changes.len() - 1]);
        if settings_changed(earlier) {
            let i = choose|i: int| 0 <= i < earlier.len() && #[trigger] earlier[i] is Settings;
            assert(changes[i] is Settings);
        }
        if settings_changed(changes) && !(changes.last() is Settings) {
            let i = choose|i: int| 0 <= i < changes.len() && #[trigger] changes[i] is Settings;
            assert(earlier[i] is Settings);
        }
    }
}

proof fn lemma_trimmed_behind(text: Seq<char>, gap: Seq<char>)
    requires
        blank(gap),
        text.len() > 0,
        !is_blank(text.first()),
    ensures
        trimmed(text + gap) == trimmed(text),
    decreases gap.len(),
{
    if gap.len() == 0 {
        assert(text + gap =~= text);
    } else {
        assert(is_blank(gap[gap.len() - 1]));
        assert((text + gap).last() == gap[gap.len() - 1]);
        assert((text + gap).drop_last() =~= text + gap.drop_last());
        assert((text + gap).first() == text.first());
        assert forall|i: int| 0 <= i < gap.drop_last().len() implies is_blank(
            #[trigger] gap.drop_last()[i],
        ) by {
            assert(is_blank(gap[i]));
        }
        lemma_trimmed_behind(text, gap.drop_last());
    }
}

/// Blanks on both sides of our cookie do not matter, whether others follow it or not.
pub proof fn law_blanks_around_are_skipped(
    gap: Seq<char>,
    token: Seq<char>,
    tail: Seq<char>,
    others: Seq<char>,
)
    requires
        forall|i: int| 0 <= i < gap.len() ==> #[trigger] gap[i] == ' ' || gap[i] == '\t',
        forall|i: int| 0 <= i < tail.len() ==> #[trigger] tail[i] == ' ' || tail[i] == '\t',
        plain(token),
    ensures
        session_token(gap + ("beam_session="@ + token + tail)) == Some(token),
        session_token(gap + ("beam_session="@ + token + tail) + seq![';'] + others) == Some(token),
{
    reveal_strlit("beam_session=");
    let cookie = session_cookie(token);
    let field = gap + (cookie + tail);
    let text = field + seq![';'] + others;
    lemma_cookie_is_plain(token);
    assert(blank(gap) && blank(tail));
    lemma_trimmed_behind(cookie, tail);
    lemma_trimmed_ahead(gap, cookie + tail);
    assert forall|i: int| 0 <= i < field.len() implies #[trigger] field[i] != ';' by {
        if i < gap.len() {
            assert(gap[i] == ' ' || gap[i] == '\t');
        } else if i < gap.len() + cookie.len() {
            assert(field[i] == cookie[i - gap.len()]);
        } else {
            let j = i - gap.len() - cookie.len();
            assert(tail[j] == ' ' || tail[j] == '\t');
        }
    }
    lemma_field_length(field, field.len());
    assert(field.take(field.len() as int) =~= field);
    assert forall|i: int| 0 <= i < field.len() implies #[trigger] text[i] != ';' by {
        assert(text[i] == field[i]);
    }
    lemma_field_length(text, field.len());
    assert(text.take(field.len() as int) =~= field);
}

/// Our cookie stands in the text from `start` to `end`, with the given value, and nothing but a
/// semicolon or a blank stands next to it.
pub open spec fn stands_at(cookies: Seq<char>, token: Seq<char>, start: int, end: int) -> bool {
    &&& 0 <= start <= end <= cookies.len()
    &&& cookies.subrange(start, end) == "beam_session="@ + token
    &&& start == 0 || cookies[start - 1] == ';' || cookies[start - 1] == ' ' || cookies[start - 1]
        == '\t'
    &&& end == cookies.len() || cookies[end] == ';' || cookies[end] == ' ' || cookies[end] == '\t'
}

/// Where a part of the text begins and ends that is left when the blanks at its ends are taken.
proof fn lemma_trimmed_part(text: Seq<char>) -> (part: (int, int))
    ensures
        0 <= part.0 <= part.1 <= text.len(),
        trimmed(text) == text.subrange(part.0, part.1),
        part.0 == 0 || is_blank(text[part.0 - 1]),
        part.1 == text.len() || is_blank(text[part.1]),
    decreases text.len(),
{
    if text.len() == 0 {
        assert(text.subrange(0, 0) =~= text);
        (0, 0)
    } else if is_blank(text.first()) {
        let part = lemma_trimmed_part(text.drop_first());
        assert(text.drop_first().subrange(part.0, part.1) =~= text.subrange(
            part.0 + 1,
            part.1 + 1,
        ));
        (part.0 + 1, part.1 + 1)
    } else if is_blank(text.last()) {
        let part = lemma_trimmed_part(text.drop_last());
        assert(text.drop_last().subrange(part.0, part.1) =~= text.subrange(part.0, part.1));
        (part.0, part.1)
    } else {
        assert(text.subrange(0, text.len() as int) =~= text);
        (0, text.len() as int)
    }
}

/// A token comes from our cookie and from nothing that looks like it: in the text stands its name
/// with the token behind it, set apart by semicolons or blanks.
pub proof fn law_tokens_come_from_our_cookie(cookies: Seq<char>)
    ensures
        session_token(cookies) matches Some(token) ==> exists|start: int, end: int| #[trigger]
            stands_at(cookies, token, start, end),
    decreases cookies.len(),
{
    let length = field_length(cookies) as int;
    lemma_field_length_bound(cookies);
    let raw = cookies.take(length);
    let field = trimmed(raw);
    if let Some(token) = session_token(cookies) {
        if has_prefix(field, COOKIE_PREFIX@) {
            let part = lemma_trimmed_part(raw);
            assert(field =~= COOKIE_PREFIX@ + token);
            assert(raw.subrange(part.0, part.1) =~= cookies.subrange(part.0, part.1));
            assert(stands_at(cookies, token, part.0, part.1));
        } else {
            let rest = cookies.skip(length + 1);
            law_tokens_come_from_our_cookie(rest);
            let (start, end) = choose|start: int, end: int| #[trigger]
                stands_at(rest, token, start, end);
            assert(cookies.subrange(start + length + 1, end + length + 1) =~= rest.subrange(
                start,
                end,
            ));
            assert(stands_at(cookies, token, start + length + 1, end + length + 1));
        }
    }
}

/// Who sends no token, or one that no session has, is not admitted.
pub proof fn law_strangers_are_not_admitted(
    expiries: Map<Seq<char>, u128>,
    cookies: Seq<char>,
    now: u128,
)
    ensures
        !admits(expiries, None, now),
        session_token(cookies) is None ==> !admits(expiries, Some(cookies), now),
        session_token(cookies) is Some && !expiries.contains_key(session_token(cookies)->0)
            ==> !admits(expiries, Some(cookies), now),
{
}

/// A session lasts a day: it admits up to the end of the day behind the sign-in, not after.
pub proof fn law_sessions_last_a_day(
    expiries: Map<Seq<char>, u128>,
    token: Seq<char>,
    opened: u128,
    now: u128,
)
    requires
        plain(token),
        opened + 24 * 3600 * 1_000_000_000 <= u128::MAX,
    ensures
        admits(
            changed(expiries, SessionChange::SignIn { token, at: opened }),
            Some("beam_session="@ + token),
            now,
        ) <==> now < opened + 24 * 3600 * 1_000_000_000,
{
    law_cookie_carries_token(token, Seq::empty());
}

/// A sign-in adds a session and touches no other; new settings leave none.
pub proof fn law_changes_touch_no_other_session(
    expiries: Map<Seq<char>, u128>,
    token: Seq<char>,
    at: u128,
    other: Seq<char>,
)
    ensures
        other != token ==> {
            let after = changed(expiries, SessionChange::SignIn { token, at });
            &&& after.contains_key(other) <==> expiries.contains_key(other)
            &&& expiries.contains_key(other) ==> after[other] == expiries[other]
        },
        changed(expiries, SessionChange::SignIn { token, at }).contains_key(token),
        !changed(expiries, SessionChange::Settings).contains_key(other),
        changed(expiries, SessionChange::Nothing) == expiries,
{
}

} // verus!
