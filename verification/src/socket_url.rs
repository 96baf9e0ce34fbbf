//! Terminal URLs: their parts, their query parameters, and the URL that a terminal connects to.

use crate::config::SharedConfig;
use crate::outside::{append_pair, clear_query, parse_text, query_pairs, uuid_to_text, UrlParts};
use crate::text::{same_text, to_decimal};
use vstd::prelude::*;

verus! {

/// A URL by its parts. `authority` is the text between scheme and path, such as
/// `://host:8080`; `port` is the one written there or else the usual one of the scheme.
#[derive(Debug, Clone)]
pub struct SocketUrl {
    pub scheme: String,
    pub authority: String,
    pub host: Option<String>,
    pub port: Option<u16>,
    pub path: String,
    pub query: Option<String>,
    pub fragment: Option<String>,
}

impl View for SocketUrl {
    type V = UrlParts;

    open spec fn view(&self) -> UrlParts {
        UrlParts {
            scheme: self.scheme@,
            authority: self.authority@,
            host: crate::outside::option_text(self.host),
            port: self.port,
            path: self.path@,
            query: crate::outside::option_text(self.query),
            fragment: crate::outside::option_text(self.fragment),
        }
    }
}

/// An optional part of a URL behind its mark.
pub open spec fn marked(mark: char, part: Option<Seq<char>>) -> Seq<char> {
    match part {
        Some(s) => seq![mark] + s,
        None => seq![],
    }
}

/// A URL as text.
pub open spec fn url_text(url: UrlParts) -> Seq<char> {
    url.scheme + url.authority + url.path + marked('?', url.query) + marked('#', url.fragment)
}

/// The query of a URL, empty where it has none.
pub open spec fn query_text(url: UrlParts) -> Seq<char> {
    match url.query {
        Some(q) => q,
        None => seq![],
    }
}

/// The test for a pair with another name.
pub open spec fn named_otherwise(key: Seq<char>) -> spec_fn((Seq<char>, Seq<char>)) -> bool {
    |p: (Seq<char>, Seq<char>)| p.0 != key
}

/// The pairs with other names, in their order, and then the pair of `key` and `value`.
pub open spec fn replaced_pairs(
    pairs: Seq<(Seq<char>, Seq<char>)>,
    key: Seq<char>,
    value: Seq<char>,
) -> Seq<(Seq<char>, Seq<char>)> {
    pairs.filter(named_otherwise(key)).push((key, value))
}

/// The pairs of a URL's query once the parameter `key` is `value`.
pub open spec fn param_pairs(url: UrlParts, key: Seq<char>, value: Seq<char>) -> Seq<
    (Seq<char>, Seq<char>),
> {
    replaced_pairs(crate::outside::form_parsed(query_text(url)), key, value)
}

/// A URL whose parameter `key` is `value`: only the query is another.
pub open spec fn with_param(url: UrlParts, key: Seq<char>, value: Seq<char>) -> UrlParts {
    UrlParts { query: Some(crate::outside::form_query(param_pairs(url, key, value))), ..url }
}

/// The UUID in the shared configuration, or why there is none.
pub open spec fn shared_uuid(config: SharedConfig<'_>) -> Result<u128, Seq<char>> {
    match config {
        SharedConfig::Uninitialized => Err("Agent config not initialized"@),
        SharedConfig::Poisoned => Err("Agent Config lock poisoned"@),
        SharedConfig::Ready(c) => Ok(c.agent_uuid),
    }
}

/// The terminal URL on a host, as text.
pub open spec fn terminal_text(
    scheme: Seq<char>,
    host: Seq<char>,
    port: u16,
    agent_uuid: u128,
    task_id: u64,
    task_token: Seq<char>,
    terminal_id: Seq<char>,
) -> Seq<char> {
    scheme + "://"@ + host + ":"@ + crate::text::decimal(port as nat) + "/terminal?agent_uuid="@
        + crate::outside::uuid_text(agent_uuid) + "&task_id="@ + crate::text::decimal(
        task_id as nat,
    ) + "&task_token="@ + task_token + "&terminal_id="@ + terminal_id
}

/// Whether a token stands in a query for itself: nothing of it is decoded, cut off or passed over.
pub open spec fn plain_token(s: Seq<char>) -> bool {
    &&& crate::outside::reads_as_itself(s)
    &&& !s.contains('#')
    &&& forall|i: int| 0 <= i < s.len() ==> !crate::outside::passed_over(#[trigger] s[i])
}

/// The parameters of a generated terminal URL that name agent, task and token.
pub open spec fn task_pairs(agent_uuid: u128, task_id: u64, task_token: Seq<char>) -> Seq<
    (Seq<char>, Seq<char>),
> {
    seq![
        ("agent_uuid"@, crate::outside::uuid_text(agent_uuid)),
        ("task_id"@, crate::text::decimal(task_id as nat)),
        ("task_token"@, task_token),
    ]
}

/// The parameters of a generated terminal URL.
pub open spec fn terminal_pairs(
    agent_uuid: u128,
    task_id: u64,
    task_token: Seq<char>,
    terminal_id: Seq<char>,
) -> Seq<(Seq<char>, Seq<char>)> {
    task_pairs(agent_uuid, task_id, task_token).push(("terminal_id"@, terminal_id))
}

/// Whether a scheme is one of WebSocket's.
pub open spec fn socket_scheme(scheme: Seq<char>) -> bool {
    scheme == "ws"@ || scheme == "wss"@
}

/// The text of the URL that is generated for `/auto_gen`, or why none is.
pub open spec fn generated_text(
    url: UrlParts,
    task_id: u64,
    task_token: Seq<char>,
    terminal_id: Seq<char>,
    config: SharedConfig<'_>,
) -> Result<Seq<char>, Seq<char>> {
    match shared_uuid(config) {
        Err(e) => Err(e),
        Ok(agent_uuid) => match url.host {
            None => Err("Invalid host: "@ + url_text(url)),
            Some(host) => match url.port {
                None => Err("Invalid port: "@ + url_text(url)),
                Some(port) => Ok(
                    terminal_text(
                        url.scheme,
                        host,
                        port,
                        agent_uuid,
                        task_id,
                        task_token,
                        terminal_id,
                    ),
                ),
            },
        },
    }
}

/// What comes of a parsed terminal URL: its parameter `terminal_id` is set.
pub open spec fn finished(
    parsed: Result<UrlParts, Seq<char>>,
    terminal_id: Seq<char>,
) -> Result<UrlParts, Seq<char>> {
    match parsed {
        Err(e) => Err("Invalid URL: "@ + e),
        Ok(url) => Ok(with_param(url, "terminal_id"@, terminal_id)),
    }
}

/// The URL that a terminal connects to, or why there is none.
pub open spec fn resolved_url(
    url: UrlParts,
    task_id: u64,
    task_token: Seq<char>,
    terminal_id: Seq<char>,
    config: SharedConfig<'_>,
) -> Result<UrlParts, Seq<char>> {
    if !socket_scheme(url.scheme) {
        Err("Invalid scheme: "@ + url.scheme)
    } else if url.path == "/auto_gen"@ {
        match generated_text(url, task_id, task_token, terminal_id, config) {
            Err(e) => Err(e),
            Ok(text) => finished(crate::outside::url_parsed(text), terminal_id),
        }
    } else {
        finished(Ok(url), terminal_id)
    }
}

/// Whether `target` is a URL as it is generated for `/auto_gen` from `url`: it has the port of
/// `url`, its path is `/terminal`, and a host name or an address is kept. The parameters begin with
/// agent and task; where the token stands for itself, it comes next; and where the id holds no
/// ampersand, only the id follows. There is a fragment just where token or id hold a number sign.
pub open spec fn is_generated(
    target: UrlParts,
    url: UrlParts,
    agent_uuid: u128,
    task_id: u64,
    task_token: Seq<char>,
    terminal_id: Seq<char>,
) -> bool {
    match (url.host, url.port) {
        (Some(host), Some(port)) => crate::outside::plain_authority(host) ==> {
            &&& target.port == Some(port)
            &&& crate::outside::kept_host(host) ==> target.host == Some(host) && target.authority
                == crate::outside::authority_text(url.scheme, host, port)
            &&& target.path == "/terminal"@
            &&& task_pairs(agent_uuid, task_id, task_token).take(2).is_prefix_of(
                crate::outside::form_parsed(query_text(target)),
            )
            &&& target.fragment is Some <==> task_token.contains('#') || terminal_id.contains('#')
            &&& plain_token(task_token) ==> {
                &&& task_pairs(agent_uuid, task_id, task_token).is_prefix_of(
                    crate::outside::form_parsed(query_text(target)),
                )
                &&& !terminal_id.contains('&') ==> {
                    &&& crate::outside::form_parsed(query_text(target)) == terminal_pairs(
                        agent_uuid,
                        task_id,
                        task_token,
                        terminal_id,
                    )
                    &&& target.query == Some(
                        crate::outside::form_query(
                            terminal_pairs(agent_uuid, task_id, task_token, terminal_id),
                        ),
                    )
                }
            }
        },
        _ => false,
    }
}

/// Whether nothing promises that a URL can be had: the scheme is none of WebSocket's; or a URL is to
/// be generated, and configuration, host or port are missing, the host is not plain, or the text is
/// too long.
pub open spec fn may_fail(
    url: UrlParts,
    task_id: u64,
    task_token: Seq<char>,
    terminal_id: Seq<char>,
    config: SharedConfig<'_>,
) -> bool {
    ||| !socket_scheme(url.scheme)
    ||| url.path == "/auto_gen"@ && match generated_text(
        url,
        task_id,
        task_token,
        terminal_id,
        config,
    ) {
        Ok(text) => !crate::outside::plain_host(url.host->0) || text.len()
            > crate::outside::SURE_URL_LENGTH,
        Err(_) => true,
    }
}

/// Whether a URL can surely be had for a WebSocket URL that was parsed: where one is generated, there
/// is a configuration, and neither the host nor the text is too long.
pub open spec fn must_succeed(
    url: UrlParts,
    task_id: u64,
    task_token: Seq<char>,
    terminal_id: Seq<char>,
    config: SharedConfig<'_>,
) -> bool {
    &&& socket_scheme(url.scheme)
    &&& crate::outside::well_formed(url)
    &&& url.path == "/auto_gen"@ ==> {
        &&& config is Ready
        &&& (url.host->0).len() <= crate::outside::SURE_HOST_LENGTH
        &&& terminal_text(
            url.scheme,
            url.host->0,
            url.port->0,
            config->Ready_0.agent_uuid,
            task_id,
            task_token,
            terminal_id,
        ).len() <= crate::outside::SURE_URL_LENGTH
    }
}

/// A result over texts.
pub open spec fn url_result(r: Result<SocketUrl, String>) -> Result<UrlParts, Seq<char>> {
    match r {
        Ok(url) => Ok(url@),
        Err(e) => Err(e@),
    }
}

impl SocketUrl {
    /// The URL that `text` writes, or the message of the error.
    pub fn parse(text: &str) -> (r: Result<SocketUrl, String>)
        ensures
            url_result(r) == crate::outside::url_parsed(text@),
            match crate::outside::url_parsed(text@) {
                Ok(url) => r matches Ok(found) && found@ == url,
                Err(message) => r matches Err(e) && e@ == message,
            },
            match r {
                Ok(url) => crate::outside::well_formed(url@),
                Err(_) => true,
            },
    {
        parse_text(text)
    }

    /// The URL as text.
    pub fn text(&self) -> (r: String)
        ensures
            r@ == url_text(self@),
            r@ == self.scheme@ + self.authority@ + self.path@ + match self.query {
                Some(query) => seq!['?'] + query@,
                None => seq![],
            } + match self.fragment {
                Some(fragment) => seq!['#'] + fragment@,
                None => seq![],
            },
    {
        let mut r: String = self.scheme.clone();
        r.append(&self.authority);
        r.append(&self.path);
        proof {
            reveal_strlit("?");
            reveal_strlit("#");
        }
        if let Some(query) = &self.query {
            r.append("?");
            r.append(query);
        }
        if let Some(fragment) = &self.fragment {
            r.append("#");
            r.append(fragment);
        }
        assert(r@ =~= url_text(self@));
        r
    }
}

/// The pairs with other names, in their order, and then the pair of `key` and `value`.
pub fn replace_pairs(pairs: &Vec<(String, String)>, key: &str, value: &str) -> (r: Vec<
    (String, String),
>)
    ensures
        crate::outside::pair_texts(r@) == replaced_pairs(
            crate::outside::pair_texts(pairs@),
            key@,
            value@,
        ),
        r@.len() > 0,
        r@.last().0@ == key@,
        r@.last().1@ == value@,
        exists|at: Seq<int>|
            #![trigger at.len()]
            {
                &&& r@.len() == at.len() + 1
                &&& forall|i: int, j: int|
                    #![trigger at[i], at[j]]
                    0 <= i < j < at.len() ==> at[i] < at[j]
                &&& forall|i: int|
                    0 <= i < at.len() ==> {
                        &&& 0 <= #[trigger] at[i] < pairs@.len()
                        &&& pairs@[at[i]].0@ != key@
                        &&& r@[i].0@ == pairs@[at[i]].0@
                        &&& r@[i].1@ == pairs@[at[i]].1@
                    }
                &&& forall|k: int|
                    0 <= k < pairs@.len() && (#[trigger] pairs@[k]).0@ != key@ ==> at.contains(k)
            },
{
    let ghost texts = crate::outside::pair_texts(pairs@);
    let ghost other = named_otherwise(key@);
    let mut r: Vec<(String, String)> = Vec::new();
    assert(texts.take(0) =~= seq![]);
    assert(crate::outside::pair_texts(r@) =~= texts.take(0).filter(other)) by {
        reveal(Seq::filter);
    }
    let mut i: usize = 0;
    while i < pairs.len()
        invariant
            i <= pairs@.len(),
            texts == crate::outside::pair_texts(pairs@),
            other == named_otherwise(key@),
            crate::outside::pair_texts(r@) == texts.take(i as int).filter(other),
        decreases pairs@.len() - i,
    {
        let ghost before = crate::outside::pair_texts(r@);
        proof {
            reveal(Seq::filter);
            assert(texts.take(i + 1).drop_last() =~= texts.take(i as int));
            assert(texts.take(i + 1).last() == texts[i as int]);
            assert(texts[i as int] == (pairs@[i as int].0@, pairs@[i as int].1@));
        }
        if !same_text(&pairs[i].0, key) {
            let pair: (String, String) = (pairs[i].0.clone(), pairs[i].1.clone());
            r.push(pair);
            assert(crate::outside::pair_texts(r@) =~= before.push(texts[i as int]));
        }
        i = i + 1;
    }
    let ghost kept = crate::outside::pair_texts(r@);
    assert(texts.take(i as int) =~= texts);
    r.push((key.to_owned(), value.to_owned()));
    assert(crate::outside::pair_texts(r@) =~= kept.push((key@, value@)));
    proof {
        let new_texts = crate::outside::pair_texts(r@);
        let at = law_other_pairs_stay(texts, key@, value@);
        assert(new_texts.last() == (r@.last().0@, r@.last().1@));
        assert forall|i: int| 0 <= i < at.len() implies {
            &&& 0 <= #[trigger] at[i] < pairs@.len()
            &&& pairs@[at[i]].0@ != key@
            &&& r@[i].0@ == pairs@[at[i]].0@
            &&& r@[i].1@ == pairs@[at[i]].1@
        } by {
            assert(new_texts[i] == (r@[i].0@, r@[i].1@));
            assert(texts[at[i]] == (pairs@[at[i]].0@, pairs@[at[i]].1@));
        }
        assert forall|k: int|
            0 <= k < pairs@.len() && (#[trigger] pairs@[k]).0@ != key@ implies at.contains(k) by {
            assert(texts[k] == (pairs@[k].0@, pairs@[k].1@));
        }
    }
    r
}

/// Sets the query parameter `key` of `url` to `value`: pairs of that name are dropped, the others
/// keep their order, and the new pair comes last. The query then reads as these pairs, and setting
/// the parameter again to the same value changes nothing. Where the query was written from pairs,
/// these are the pairs from before; where raw pairs stand at its beginning, those with other names
/// stay there, and where the parameter alone follows them, its new value does.
pub fn set_or_replace_query_param(url: &mut SocketUrl, key: &str, value: &str)
    ensures
        final(url)@ == with_param(old(url)@, key@, value@),
        crate::outside::form_parsed(query_text(final(url)@)) == param_pairs(
            old(url)@,
            key@,
            value@,
        ),
        with_param(final(url)@, key@, value@) == final(url)@,
        final(url).scheme == old(url).scheme,
        final(url).authority == old(url).authority,
        final(url).host == old(url).host,
        final(url).port == old(url).port,
        final(url).path == old(url).path,
        final(url).fragment == old(url).fragment,
        final(url).query matches Some(query) && {
            let before = crate::outside::form_parsed(
                match old(url).query {
                    Some(query) => query@,
                    None => seq![],
                },
            );
            let after = crate::outside::form_parsed(query@);
            &&& query@ == crate::outside::form_query(after)
            &&& after.len() > 0
            &&& after.last() == (key@, value@)
            &&& exists|at: Seq<int>|
                #![trigger at.len()]
                {
                    &&& after.len() == at.len() + 1
                    &&& forall|i: int, j: int|
                        #![trigger at[i], at[j]]
                        0 <= i < j < at.len() ==> at[i] < at[j]
                    &&& forall|i: int|
                        0 <= i < at.len() ==> {
                            &&& 0 <= #[trigger] at[i] < before.len()
                            &&& before[at[i]].0 != key@
                            &&& after[i] == before[at[i]]
                        }
                    &&& forall|k: int|
                        0 <= k < before.len() && before[k].0 != key@ ==> #[trigger] at.contains(k)
                }
        },
        forall|pairs: Seq<(Seq<char>, Seq<char>)>| #[trigger]
            crate::outside::form_query(pairs) == query_text(old(url)@)
                ==> crate::outside::form_parsed(query_text(final(url)@)) == replaced_pairs(
                pairs,
                key@,
                value@,
            ),
        forall|pairs: Seq<(Seq<char>, Seq<char>)>, rest: Seq<char>| #[trigger]
            crate::outside::begins_with(query_text(old(url)@), pairs, rest) ==> pairs.filter(
                named_otherwise(key@),
            ).is_prefix_of(crate::outside::form_parsed(query_text(final(url)@))),
        forall|pairs: Seq<(Seq<char>, Seq<char>)>, before: Seq<char>| #[trigger]
            crate::outside::ends_with(query_text(old(url)@), pairs, key@, before)
                ==> crate::outside::form_parsed(query_text(final(url)@)) == replaced_pairs(
                pairs,
                key@,
                value@,
            ),
{
    let query: String = match &url.query {
        Some(q) => q.clone(),
        None => String::new(),
    };
    let read: Vec<(String, String)> = query_pairs(&query);
    let pairs: Vec<(String, String)> = replace_pairs(&read, key, value);
    proof {
        let parsed = crate::outside::pair_texts(read@);
        assert forall|first: Seq<(Seq<char>, Seq<char>)>, rest: Seq<char>| #[trigger]
            crate::outside::begins_with(query@, first, rest) implies first.filter(
            named_otherwise(key@),
        ).is_prefix_of(replaced_pairs(parsed, key@, value@)) by {
            lemma_prefix_stays(first, parsed, key@, value@);
        }
        assert forall|first: Seq<(Seq<char>, Seq<char>)>, before: Seq<char>| #[trigger]
            crate::outside::ends_with(query@, first, key@, before) implies replaced_pairs(
            parsed,
            key@,
            value@,
        ) == replaced_pairs(first, key@, value@) by {
            lemma_last_replaced(first, parsed, key@, value@);
        }
    }
    let ghost texts = crate::outside::pair_texts(pairs@);
    assert(query@ == query_text(url@));
    assert(texts == param_pairs(url@, key@, value@));
    let mut out: String = clear_query(query);
    assert(texts.take(0) =~= seq![]);
    let mut i: usize = 0;
    while i < pairs.len()
        invariant
            i <= pairs@.len(),
            texts == crate::outside::pair_texts(pairs@),
            out@ == crate::outside::form_query(texts.take(i as int)),
            crate::outside::form_parsed(out@) == texts.take(i as int),
        decreases pairs@.len() - i,
    {
        proof {
            assert(texts.take(i + 1).drop_last() =~= texts.take(i as int));
            assert(texts[i as int] == (pairs@[i as int].0@, pairs@[i as int].1@));
            assert(texts.take(i + 1) =~= texts.take(i as int).push(texts[i as int]));
        }
        out = append_pair(out, &pairs[i].0, &pairs[i].1);
        i = i + 1;
    }
    assert(texts.take(i as int) =~= texts);
    proof {
        lemma_param_set_twice(url@, key@, value@);
        law_other_pairs_stay(crate::outside::form_parsed(query_text(url@)), key@, value@);
    }
    url.query = Some(out);
}

/// What comes of parsing a generated terminal URL: its parameter `terminal_id` is set.
pub fn finish_url(parsed: Result<SocketUrl, String>, terminal_id: &str) -> (r: Result<
    SocketUrl,
    String,
>)
    ensures
        url_result(r) == finished(url_result(parsed), terminal_id@),
        match parsed {
            Err(message) => r matches Err(e) && e@ == "Invalid URL: "@ + message@,
            Ok(url) => r matches Ok(target) && {
                &&& target.scheme == url.scheme
                &&& target.authority == url.authority
                &&& target.host == url.host
                &&& target.port == url.port
                &&& target.path == url.path
                &&& target.fragment == url.fragment
                &&& target.query matches Some(query) && {
                    let before = crate::outside::form_parsed(
                        match url.query {
                            Some(query) => query@,
                            None => seq![],
                        },
                    );
                    let after = crate::outside::form_parsed(query@);
                    &&& query@ == crate::outside::form_query(after)
                    &&& after.len() > 0
                    &&& after.last() == ("terminal_id"@, terminal_id@)
                    &&& exists|at: Seq<int>|
                        #![trigger at.len()]
                        {
                            &&& after.len() == at.len() + 1
                            &&& forall|i: int, j: int|
                                #![trigger at[i], at[j]]
                                0 <= i < j < at.len() ==> at[i] < at[j]
                            &&& forall|i: int|
                                0 <= i < at.len() ==> {
                                    &&& 0 <= #[trigger] at[i] < before.len()
                                    &&& before[at[i]].0 != "terminal_id"@
                                    &&& after[i] == before[at[i]]
                                }
                            &&& forall|k: int|
                                0 <= k < before.len() && before[k].0 != "terminal_id"@
                                    ==> #[trigger] at.contains(k)
                        }
                }
            },
        },
        match (parsed, r) {
            (Ok(before), Ok(after)) => {
                &&& crate::outside::form_parsed(query_text(after@)) == param_pairs(
                    before@,
                    "terminal_id"@,
                    terminal_id@,
                )
                &&& forall|pairs: Seq<(Seq<char>, Seq<char>)>| #[trigger]
                    crate::outside::form_query(pairs) == query_text(before@)
                        ==> crate::outside::form_parsed(query_text(after@)) == replaced_pairs(
                        pairs,
                        "terminal_id"@,
                        terminal_id@,
                    )
                &&& forall|pairs: Seq<(Seq<char>, Seq<char>)>, rest: Seq<char>| #[trigger]
                    crate::outside::begins_with(query_text(before@), pairs, rest)
                        ==> pairs.filter(named_otherwise("terminal_id"@)).is_prefix_of(
                        crate::outside::form_parsed(query_text(after@)),
                    )
                &&& forall|pairs: Seq<(Seq<char>, Seq<char>)>, written: Seq<char>| #[trigger]
                    crate::outside::ends_with(
                        query_text(before@),
                        pairs,
                        "terminal_id"@,
                        written,
                    ) ==> crate::outside::form_parsed(query_text(after@)) == replaced_pairs(
                        pairs,
                        "terminal_id"@,
                        terminal_id@,
                    )
            },
            _ => true,
        },
{
    match parsed {
        Ok(url) => {
            let mut url: SocketUrl = url;
            set_or_replace_query_param(&mut url, "terminal_id", terminal_id);
            Ok(url)
        },
        Err(e) => {
            let mut message: String = "Invalid URL: ".to_owned();
            message.append(&e);
            Err(message)
        },
    }
}

/// The text of the URL that is generated for `/auto_gen`, or why none is.
pub fn generate_text(
    url: &SocketUrl,
    task_id: u64,
    task_token: &str,
    terminal_id: &str,
    config: &SharedConfig<'_>,
) -> (r: Result<String, String>)
    ensures
        match r {
            Ok(text) => generated_text(url@, task_id, task_token@, terminal_id@, *config) == Ok::<
                Seq<char>,
                Seq<char>,
            >(text@),
            Err(e) => generated_text(url@, task_id, task_token@, terminal_id@, *config) == Err::<
                Seq<char>,
                Seq<char>,
            >(e@),
        },
        match *config {
            SharedConfig::Uninitialized => r matches Err(e) && e@
                == "Agent config not initialized"@,
            SharedConfig::Poisoned => r matches Err(e) && e@ == "Agent Config lock poisoned"@,
            SharedConfig::Ready(c) => match (url.host, url.port) {
                (None, _) => r matches Err(e) && e@ == "Invalid host: "@ + (url.scheme@
                    + url.authority@ + url.path@ + match url.query {
                    Some(query) => seq!['?'] + query@,
                    None => seq![],
                } + match url.fragment {
                    Some(fragment) => seq!['#'] + fragment@,
                    None => seq![],
                }),
                (Some(_), None) => r matches Err(e) && e@ == "Invalid port: "@ + (url.scheme@
                    + url.authority@ + url.path@ + match url.query {
                    Some(query) => seq!['?'] + query@,
                    None => seq![],
                } + match url.fragment {
                    Some(fragment) => seq!['#'] + fragment@,
                    None => seq![],
                }),
                (Some(host), Some(port)) => r matches Ok(text) && text@ == url.scheme@ + "://"@
                    + host@ + ":"@ + crate::text::decimal(port as nat) + "/terminal?agent_uuid="@
                    + crate::outside::uuid_text(c.agent_uuid) + "&task_id="@
                    + crate::text::decimal(task_id as nat) + "&task_token="@ + task_token@
                    + "&terminal_id="@ + terminal_id@,
            },
        },
{
    let agent_uuid: u128 = match config {
        SharedConfig::Uninitialized => {
            return Err("Agent config not initialized".to_owned());
        },
        SharedConfig::Poisoned => {
            return Err("Agent Config lock poisoned".to_owned());
        },
        SharedConfig::Ready(c) => c.agent_uuid,
    };
    let host: &String = match &url.host {
        Some(host) => host,
        None => {
            let mut message: String = "Invalid host: ".to_owned();
            message.append(&url.text());
            return Err(message);
        },
    };
    let port: u16 = match url.port {
        Some(port) => port,
        None => {
            let mut message: String = "Invalid port: ".to_owned();
            message.append(&url.text());
            return Err(message);
        },
    };
    let mut text: String = url.scheme.clone();
    text.append("://");
    text.append(host);
    text.append(":");
    text.append(&to_decimal(port as u64));
    text.append("/terminal?agent_uuid=");
    text.append(&uuid_to_text(agent_uuid));
    text.append("&task_id=");
    text.append(&to_decimal(task_id));
    text.append("&task_token=");
    text.append(task_token);
    text.append("&terminal_id=");
    text.append(terminal_id);
    Ok(text)
}

/// The URL that a terminal connects to.
///
/// The scheme must be `ws` or `wss`. Where the path is `/auto_gen`, a URL on the same host is
/// generated, which names the agent, the task and the terminal; otherwise `url` itself is taken.
/// Either way its parameter `terminal_id` is set. Resolving the URL again for the same terminal, in
/// whatever task, gives it back.
pub fn parse_url(
    url: SocketUrl,
    task_id: u64,
    task_token: &str,
    terminal_id: &str,
    config: &SharedConfig<'_>,
) -> (r: Result<SocketUrl, String>)
    ensures
        url_result(r) == resolved_url(url@, task_id, task_token@, terminal_id@, *config),
        url.scheme@ != "ws"@ && url.scheme@ != "wss"@ ==> (r matches Err(e) && e@
            == "Invalid scheme: "@ + url.scheme@),
        (url.scheme@ == "ws"@ || url.scheme@ == "wss"@) && url.path@ != "/auto_gen"@ ==> (
        r matches Ok(target) && {
            &&& target.scheme == url.scheme
            &&& target.authority == url.authority
            &&& target.host == url.host
            &&& target.port == url.port
            &&& target.path == url.path
            &&& target.fragment == url.fragment
            &&& target.query matches Some(query) && {
                let before = crate::outside::form_parsed(
                    match url.query {
                        Some(query) => query@,
                        None => seq![],
                    },
                );
                let after = crate::outside::form_parsed(query@);
                &&& query@ == crate::outside::form_query(after)
                &&& after.len() > 0
                &&& after.last() == ("terminal_id"@, terminal_id@)
                &&& exists|at: Seq<int>|
                    #![trigger at.len()]
                    {
                        &&& after.len() == at.len() + 1
                        &&& forall|i: int, j: int|
                            #![trigger at[i], at[j]]
                            0 <= i < j < at.len() ==> at[i] < at[j]
                        &&& forall|i: int|
                            0 <= i < at.len() ==> {
                                &&& 0 <= #[trigger] at[i] < before.len()
                                &&& before[at[i]].0 != "terminal_id"@
                                &&& after[i] == before[at[i]]
                            }
                        &&& forall|k: int|
                            0 <= k < before.len() && before[k].0 != "terminal_id"@
                                ==> #[trigger] at.contains(k)
                    }
            }
        }),
        (url.scheme@ == "ws"@ || url.scheme@ == "wss"@) && url.path@ == "/auto_gen"@
            ==> match *config {
            SharedConfig::Uninitialized => r matches Err(e) && e@
                == "Agent config not initialized"@,
            SharedConfig::Poisoned => r matches Err(e) && e@ == "Agent Config lock poisoned"@,
            SharedConfig::Ready(c) => match (url.host, url.port) {
                (None, _) => r matches Err(e) && e@ == "Invalid host: "@ + (url.scheme@
                    + url.authority@ + url.path@ + match url.query {
                    Some(query) => seq!['?'] + query@,
                    None => seq![],
                } + match url.fragment {
                    Some(fragment) => seq!['#'] + fragment@,
                    None => seq![],
                }),
                (Some(_), None) => r matches Err(e) && e@ == "Invalid port: "@ + (url.scheme@
                    + url.authority@ + url.path@ + match url.query {
                    Some(query) => seq!['?'] + query@,
                    None => seq![],
                } + match url.fragment {
                    Some(fragment) => seq!['#'] + fragment@,
                    None => seq![],
                }),
                (Some(host), Some(port)) => match crate::outside::url_parsed(
                    url.scheme@ + "://"@ + host@ + ":"@ + crate::text::decimal(port as nat)
                        + "/terminal?agent_uuid="@ + crate::outside::uuid_text(c.agent_uuid)
                        + "&task_id="@
                        + crate::text::decimal(task_id as nat) + "&task_token="@ + task_token@
                        + "&terminal_id="@ + terminal_id@,
                ) {
                    Err(message) => r matches Err(e) && e@ == "Invalid URL: "@ + message,
                    Ok(found) => r matches Ok(target) && {
                        &&& target@.scheme == found.scheme
                        &&& target@.authority == found.authority
                        &&& target@.host == found.host
                        &&& target@.port == found.port
                        &&& target@.path == found.path
                        &&& target@.fragment == found.fragment
                        &&& target.query matches Some(query) && {
                            let before = crate::outside::form_parsed(
                                match found.query {
                                    Some(query) => query,
                                    None => seq![],
                                },
                            );
                            let after = crate::outside::form_parsed(query@);
                            &&& query@ == crate::outside::form_query(after)
                            &&& after.len() > 0
                            &&& after.last() == ("terminal_id"@, terminal_id@)
                            &&& exists|at: Seq<int>|
                                #![trigger at.len()]
                                {
                                    &&& after.len() == at.len() + 1
                                    &&& forall|i: int, j: int|
                                        #![trigger at[i], at[j]]
                                        0 <= i < j < at.len() ==> at[i] < at[j]
                                    &&& forall|i: int|
                                        0 <= i < at.len() ==> {
                                            &&& 0 <= #[trigger] at[i] < before.len()
                                            &&& before[at[i]].0 != "terminal_id"@
                                            &&& after[i] == before[at[i]]
                                        }
                                    &&& forall|k: int|
                                        0 <= k < before.len() && before[k].0 != "terminal_id"@
                                            ==> #[trigger] at.contains(k)
                                }
                        }
                    },
                },
            },
        },
        match r {
            Ok(target) => {
                &&& target@.scheme == url@.scheme
                &&& crate::outside::well_formed(url@) ==> crate::outside::well_formed(target@)
                &&& crate::outside::well_formed(url@) ==> forall|
                    other_id: u64,
                    other_token: Seq<char>,
                    other_config: SharedConfig<'_>,
                | #[trigger]
                    resolved_url(target@, other_id, other_token, terminal_id@, other_config) == Ok::<
                        UrlParts,
                        Seq<char>,
                    >(target@)
                &&& url@.path != "/auto_gen"@ ==> crate::outside::form_parsed(query_text(target@))
                    == param_pairs(url@, "terminal_id"@, terminal_id@)
                &&& crate::outside::form_parsed(query_text(target@)).last() == (
                    "terminal_id"@,
                    terminal_id@,
                )
                &&& forall|i: int|
                    0 <= i < crate::outside::form_parsed(query_text(target@)).len() - 1
                        ==> (#[trigger] crate::outside::form_parsed(query_text(target@))[i]).0
                        != "terminal_id"@
                &&& url@.path == "/auto_gen"@ ==> match *config {
                    SharedConfig::Ready(c) => is_generated(
                        target@,
                        url@,
                        c.agent_uuid,
                        task_id,
                        task_token@,
                        terminal_id@,
                    ),
                    _ => false,
                }
            },
            Err(_) => may_fail(url@, task_id, task_token@, terminal_id@, *config),
        },
        must_succeed(url@, task_id, task_token@, terminal_id@, *config) ==> r is Ok,
{
    if !(same_text(&url.scheme, "ws") || same_text(&url.scheme, "wss")) {
        let mut message: String = "Invalid scheme: ".to_owned();
        message.append(&url.scheme);
        return Err(message);
    }
    let parsed: Result<SocketUrl, String> = if same_text(&url.path, "/auto_gen") {
        match generate_text(&url, task_id, task_token, terminal_id, config) {
            Ok(text) => {
                proof {
                    lemma_text_begins_with_scheme(
                        url@,
                        task_id,
                        task_token@,
                        terminal_id@,
                        *config,
                    );
                    let host = url@.host->0;
                    if crate::outside::kept_host(host) {
                        lemma_kept_host(host);
                    }
                    if crate::outside::plain_authority(host) {
                        lemma_generated(
                            url@.scheme,
                            host,
                            url@.port->0,
                            config->Ready_0.agent_uuid,
                            task_id,
                            task_token@,
                            terminal_id@,
                        );
                    }
                }
                parse_text(&text)
            },
            Err(e) => {
                return Err(e);
            },
        }
    } else {
        Ok(url)
    };
    proof {
        if parsed is Ok {
            law_param_is_last(
                crate::outside::form_parsed(query_text((parsed->Ok_0)@)),
                "terminal_id"@,
                terminal_id@,
            );
        }
    }
    let ghost before = parsed;
    let r: Result<SocketUrl, String> = finish_url(parsed, terminal_id);
    proof {
        assert("/auto_gen"@ != "/terminal"@) by {
            reveal_strlit("/auto_gen");
            reveal_strlit("/terminal");
            assert("/auto_gen"@[1] == 'a');
            assert("/terminal"@[1] == 't');
        }
        if before is Ok {
            lemma_param_set_twice((before->Ok_0)@, "terminal_id"@, terminal_id@);
        }
    }
    r
}

/// The text of a generated URL begins with the scheme and a colon.
proof fn lemma_text_begins_with_scheme(
    url: UrlParts,
    task_id: u64,
    task_token: Seq<char>,
    terminal_id: Seq<char>,
    config: SharedConfig<'_>,
)
    requires
        socket_scheme(url.scheme),
        generated_text(url, task_id, task_token, terminal_id, config) is Ok,
    ensures
        ({
            let text = generated_text(url, task_id, task_token, terminal_id, config)->Ok_0;
            &&& url.scheme == "ws"@ ==> "ws:"@.is_prefix_of(text)
            &&& url.scheme == "wss"@ ==> "wss:"@.is_prefix_of(text)
        }),
{
    let text = generated_text(url, task_id, task_token, terminal_id, config)->Ok_0;
    let n = url.scheme.len() as int;
    reveal_strlit("ws");
    reveal_strlit("wss");
    reveal_strlit("ws:");
    reveal_strlit("wss:");
    reveal_strlit("://");
    assert(text.take(n) =~= url.scheme);
    assert(text[n] == ':');
    if url.scheme == "ws"@ {
        assert("ws:"@ =~= text.take(3));
    } else {
        assert("wss:"@ =~= text.take(4));
    }
}

/// What follows the question mark of a generated terminal URL, up to the terminal's id.
spec fn terminal_query(agent_uuid: u128, task_id: u64, task_token: Seq<char>) -> Seq<char> {
    "agent_uuid="@ + crate::outside::uuid_text(agent_uuid) + "&task_id="@ + crate::text::decimal(
        task_id as nat,
    ) + "&task_token="@ + task_token + "&terminal_id="@
}

/// Whether a text stands in a query as it is.
spec fn plain_query(s: Seq<char>) -> bool {
    forall|i: int| 0 <= i < s.len() ==> crate::outside::query_unchanged(#[trigger] s[i])
}

proof fn lemma_encoded_add(a: Seq<char>, b: Seq<char>)
    ensures
        crate::outside::query_encoded(a + b) == crate::outside::query_encoded(a)
            + crate::outside::query_encoded(b),
    decreases b.len(),
{
    if b.len() == 0 {
        assert(a + b =~= a);
        assert(crate::outside::query_encoded(a) + crate::outside::query_encoded(b)
            =~= crate::outside::query_encoded(a));
    } else {
        assert((a + b).drop_last() =~= a + b.drop_last());
        assert((a + b).last() == b.last());
        lemma_encoded_add(a, b.drop_last());
        assert(crate::outside::query_encoded(a + b) =~= crate::outside::query_encoded(a)
            + crate::outside::query_encoded(b));
    }
}

proof fn lemma_encoded_plain(s: Seq<char>)
    requires
        plain_query(s),
    ensures
        crate::outside::query_encoded(s) == s,
    decreases s.len(),
{
    if s.len() > 0 {
        let front = s.drop_last();
        assert forall|i: int| 0 <= i < front.len() implies crate::outside::query_unchanged(
            #[trigger] front[i],
        ) by {
            assert(front[i] == s[i]);
        }
        lemma_encoded_plain(front);
        assert(crate::outside::query_unchanged(s[s.len() - 1]));
        assert(front + seq![s.last()] =~= s);
    }
}

/// Percent signs and digits are no ampersands.
proof fn lemma_percent_bytes(bytes: Seq<u8>)
    ensures
        !crate::outside::percent_bytes(bytes).contains('&'),
    decreases bytes.len(),
{
    if bytes.len() > 0 {
        let front = crate::outside::percent_bytes(bytes.drop_last());
        let b = bytes.last() as int;
        let last = seq![
            '%',
            crate::outside::hex_capital(b / 16),
            crate::outside::hex_capital(b % 16),
        ];
        lemma_percent_bytes(bytes.drop_last());
        assert(last[0] != '&' && last[1] != '&' && last[2] != '&');
        lemma_lacks_add(front, last, '&');
    }
}

proof fn lemma_lacks_add(a: Seq<char>, b: Seq<char>, c: char)
    requires
        !a.contains(c),
        !b.contains(c),
    ensures
        !(a + b).contains(c),
{
    assert forall|i: int| 0 <= i < (a + b).len() implies (a + b)[i] != c by {
        if i < a.len() {
            assert(a.contains(a[i]));
        } else {
            assert(b.contains(b[i - a.len()]));
        }
    }
}

/// Encoding brings no ampersand in.
proof fn lemma_encoded_lacks_ampersand(s: Seq<char>)
    requires
        !s.contains('&'),
    ensures
        !crate::outside::query_encoded(s).contains('&'),
    decreases s.len(),
{
    if s.len() > 0 {
        lemma_lacks_part(s, s.drop_last(), '&');
        lemma_encoded_lacks_ampersand(s.drop_last());
        assert(s.contains(s[s.len() - 1]));
        lemma_percent_bytes(vstd::utf8::encode_utf8(seq![s.last()]));
        let last = if crate::outside::query_unchanged(s.last()) {
            seq![s.last()]
        } else {
            crate::outside::percent_bytes(vstd::utf8::encode_utf8(seq![s.last()]))
        };
        assert(!last.contains('&'));
        lemma_lacks_add(crate::outside::query_encoded(s.drop_last()), last, '&');
    }
}

/// The beginning of a text that lacks a character lacks it too.
proof fn lemma_lacks_part(s: Seq<char>, part: Seq<char>, c: char)
    requires
        !s.contains(c),
        part.is_prefix_of(s),
    ensures
        !part.contains(c),
{
    assert forall|i: int| 0 <= i < part.len() implies part[i] != c by {
        assert(part[i] == s[i]);
        assert(s.contains(s[i]));
    }
}

proof fn lemma_without_tail(before: Seq<char>, s: Seq<char>)
    requires
        before.len() > 0,
        before.last() > ' ',
    ensures
        crate::outside::without_tail(before + s) == before + crate::outside::without_tail(s),
        crate::outside::without_tail(s).is_prefix_of(s),
    decreases s.len(),
{
    if s.len() == 0 {
        assert(before + s =~= before);
    } else {
        assert((before + s).last() == s.last());
        assert((before + s).drop_last() =~= before + s.drop_last());
        lemma_without_tail(before, s.drop_last());
    }
}

proof fn lemma_without_passed_over(before: Seq<char>, s: Seq<char>)
    requires
        forall|i: int|
            0 <= i < before.len() ==> !crate::outside::passed_over(#[trigger] before[i]),
    ensures
        crate::outside::without_passed_over(before + s) == before
            + crate::outside::without_passed_over(s),
    decreases before.len() + s.len(),
{
    if s.len() > 0 {
        assert((before + s).last() == s.last());
        assert((before + s).drop_last() =~= before + s.drop_last());
        lemma_without_passed_over(before, s.drop_last());
        assert(crate::outside::without_passed_over(before + s) =~= before
            + crate::outside::without_passed_over(s));
    } else if before.len() > 0 {
        let front = before.drop_last();
        assert(before + s =~= before);
        assert(front + s =~= front);
        assert(!crate::outside::passed_over(before[before.len() - 1]));
        lemma_without_passed_over(front, s);
        assert(crate::outside::without_passed_over(before) =~= before);
    } else {
        assert(crate::outside::without_passed_over(before + s) =~= seq![]);
    }
}

proof fn lemma_passed_over_lacks(s: Seq<char>, c: char)
    requires
        !s.contains(c),
    ensures
        !crate::outside::without_passed_over(s).contains(c),
    decreases s.len(),
{
    if s.len() > 0 {
        lemma_lacks_part(s, s.drop_last(), c);
        lemma_passed_over_lacks(s.drop_last(), c);
        assert(s.contains(s[s.len() - 1]));
        let front = crate::outside::without_passed_over(s.drop_last());
        lemma_lacks_add(front, seq![s.last()], c);
        assert(front.push(s.last()) =~= front + seq![s.last()]);
    }
}

/// What is left of a text that begins with `before` begins with it too, where `before` is neither
/// cut off nor passed over.
proof fn lemma_query_part(before: Seq<char>, s: Seq<char>)
    requires
        unbroken(before),
    ensures
        crate::outside::query_part(before + s) == before + crate::outside::query_part(s),
        !s.contains('&') ==> !crate::outside::query_part(s).contains('&'),
{
    lemma_without_tail(before, s);
    let rest = crate::outside::without_tail(s);
    let all = before + rest;
    let hash = crate::text::is_char('#');
    let end = crate::text::first_char(rest, '#');
    crate::text::lemma_first_index(rest, hash, end);
    assert forall|j: int| 0 <= j < before.len() + end implies !hash(#[trigger] all[j]) by {
        if j < before.len() {
            assert(before.contains(before[j]));
        } else {
            assert(!hash(rest[j - before.len()]));
        }
    }
    crate::text::lemma_first_index(all, hash, before.len() + end);
    assert(all.take(before.len() + end) =~= before + rest.take(end));
    lemma_without_passed_over(before, rest.take(end));
    if !s.contains('&') {
        lemma_lacks_part(s, rest.take(end), '&');
        lemma_passed_over_lacks(rest.take(end), '&');
    }
}

proof fn lemma_decimal(n: nat)
    ensures
        crate::text::decimal(n).len() > 0,
        forall|i: int|
            0 <= i < crate::text::decimal(n).len() ==> '0' <= #[trigger] crate::text::decimal(n)[i]
                <= '9',
    decreases n,
{
    if n >= 10 {
        lemma_decimal(n / 10);
    }
}

/// A host that is kept can stand between the slashes and the path of a URL.
proof fn lemma_kept_host(host: Seq<char>)
    requires
        crate::outside::kept_host(host),
    ensures
        crate::outside::plain_authority(host),
{
    if crate::outside::host_name(host) {
        assert forall|i: int| 0 <= i < host.len() implies {
            let c = #[trigger] host[i];
            c != '/' && c != '?' && c != '#' && c != '\\' && c != '\t' && c != '\n' && c != '\r'
        } by {
            assert(crate::outside::host_char(host[i]));
        }
    } else if crate::outside::ipv4_host(host) {
        let (a, b, c, d) = choose|a: u8, b: u8, c: u8, d: u8|
            host == #[trigger] crate::outside::dotted(a, b, c, d);
        lemma_decimal(a as nat);
        lemma_decimal(b as nat);
        lemma_decimal(c as nat);
        lemma_decimal(d as nat);
        assert forall|i: int| 0 <= i < host.len() implies {
            let x = #[trigger] host[i];
            x == '.' || '0' <= x <= '9'
        } by {
            lemma_dotted_char(a, b, c, d, i);
        }
    }
}

proof fn lemma_dotted_char(a: u8, b: u8, c: u8, d: u8, i: int)
    requires
        0 <= i < crate::outside::dotted(a, b, c, d).len(),
    ensures
        ({
            let x = crate::outside::dotted(a, b, c, d)[i];
            x == '.' || '0' <= x <= '9'
        }),
{
    lemma_decimal(a as nat);
    lemma_decimal(b as nat);
    lemma_decimal(c as nat);
    lemma_decimal(d as nat);
    let s = crate::outside::dotted(a, b, c, d);
    let na = crate::text::decimal(a as nat).len();
    let nb = na + 1 + crate::text::decimal(b as nat).len();
    let nc = nb + 1 + crate::text::decimal(c as nat).len();
    if i < na {
        assert(s[i] == crate::text::decimal(a as nat)[i]);
    } else if na < i < nb {
        assert(s[i] == crate::text::decimal(b as nat)[i - na - 1]);
    } else if nb < i < nc {
        assert(s[i] == crate::text::decimal(c as nat)[i - nb - 1]);
    } else if nc < i {
        assert(s[i] == crate::text::decimal(d as nat)[i - nc - 1]);
    }
}

/// A text of hyphens, digits and small letters stands in a query as it is and for itself.
proof fn lemma_word_reads_as_itself(s: Seq<char>)
    requires
        forall|i: int|
            0 <= i < s.len() ==> {
                let c = #[trigger] s[i];
                c == '-' || c == '_' || '0' <= c <= '9' || 'a' <= c <= 'z'
            },
    ensures
        plain_query(s),
        plain_token(s),
        !s.contains('='),
{
    assert forall|i: int| !#[trigger] crate::outside::percent_at(s, i) by {
        if 0 <= i < s.len() {
            assert(s[i] != '%');
        }
    }
}

/// The names of a generated URL's parameters stand for themselves, and `terminal_id` is none of the
/// others.
proof fn lemma_names()
    ensures
        plain_query("agent_uuid"@),
        plain_token("agent_uuid"@),
        !"agent_uuid"@.contains('='),
        plain_query("task_id"@),
        plain_token("task_id"@),
        !"task_id"@.contains('='),
        plain_query("task_token"@),
        plain_token("task_token"@),
        !"task_token"@.contains('='),
        forall|i: int|
            0 <= i < "terminal_id"@.len() ==> crate::outside::form_unchanged_char(
                #[trigger] "terminal_id"@[i],
            ),
        plain_query("terminal_id"@),
        plain_token("terminal_id"@),
        "agent_uuid"@ != "terminal_id"@,
        "task_id"@ != "terminal_id"@,
        "task_token"@ != "terminal_id"@,
{
    reveal_strlit("agent_uuid");
    reveal_strlit("task_id");
    reveal_strlit("task_token");
    reveal_strlit("terminal_id");
    assert("terminal_id"@.len() == 11);
    assert("agent_uuid"@.len() == 10);
    assert("task_id"@.len() == 7);
    assert("task_token"@.len() == 10);
    lemma_word_reads_as_itself("agent_uuid"@);
    lemma_word_reads_as_itself("task_id"@);
    lemma_word_reads_as_itself("task_token"@);
    lemma_word_reads_as_itself("terminal_id"@);
}

/// The text of a generated URL has the shape of one; and where the token stands for itself, its
/// query begins with agent, task and token, and then has the id.
proof fn lemma_generated(
    scheme: Seq<char>,
    host: Seq<char>,
    port: u16,
    agent_uuid: u128,
    task_id: u64,
    task_token: Seq<char>,
    terminal_id: Seq<char>,
)
    requires
        socket_scheme(scheme),
        crate::outside::plain_authority(host),
    ensures
        crate::outside::socket_text(
            terminal_text(scheme, host, port, agent_uuid, task_id, task_token, terminal_id),
            scheme,
            host,
            port,
            "terminal"@,
            terminal_query(agent_uuid, task_id, task_token) + terminal_id,
        ),
        "/"@ + "terminal"@ == "/terminal"@,
        ({
            let pairs = task_pairs(agent_uuid, task_id, task_token).take(2);
            let rest = terminal_query(agent_uuid, task_id, task_token) + terminal_id;
            let query = crate::outside::query_encoded(crate::outside::query_part(rest));
            let behind = crate::outside::query_part(
                task_token + "&terminal_id="@ + terminal_id,
            );
            &&& crate::outside::begins_with(
                query,
                pairs,
                "task_token"@ + seq!['='] + crate::outside::query_encoded(behind),
            )
            &&& pairs.filter(named_otherwise("terminal_id"@)) == pairs
            &&& rest.contains('#') <==> task_token.contains('#') || terminal_id.contains('#')
        }),
        plain_token(task_token) ==> {
            let pairs = task_pairs(agent_uuid, task_id, task_token);
            let rest = terminal_query(agent_uuid, task_id, task_token) + terminal_id;
            let query = crate::outside::query_encoded(crate::outside::query_part(rest));
            let written = crate::outside::query_encoded(crate::outside::query_part(terminal_id));
            &&& crate::outside::begins_with(
                query,
                pairs,
                "terminal_id"@ + seq!['='] + written,
            )
            &&& pairs.filter(named_otherwise("terminal_id"@)) == pairs
            &&& !terminal_id.contains('&') ==> crate::outside::ends_with(
                query,
                pairs,
                "terminal_id"@,
                written,
            )
        },
{
    lemma_text_shape(scheme, host, port, agent_uuid, task_id, task_token, terminal_id);
    lemma_agent_and_task(agent_uuid, task_id, task_token, terminal_id);
    lemma_number_sign(agent_uuid, task_id, task_token, terminal_id);
    if plain_token(task_token) {
        lemma_agent_task_and_token(agent_uuid, task_id, task_token, terminal_id);
    }
}

/// The text of a generated URL has the shape of one.
proof fn lemma_text_shape(
    scheme: Seq<char>,
    host: Seq<char>,
    port: u16,
    agent_uuid: u128,
    task_id: u64,
    task_token: Seq<char>,
    terminal_id: Seq<char>,
)
    requires
        socket_scheme(scheme),
        crate::outside::plain_authority(host),
    ensures
        crate::outside::socket_text(
            terminal_text(scheme, host, port, agent_uuid, task_id, task_token, terminal_id),
            scheme,
            host,
            port,
            "terminal"@,
            terminal_query(agent_uuid, task_id, task_token) + terminal_id,
        ),
        "/"@ + "terminal"@ == "/terminal"@,
{
    let rest = terminal_query(agent_uuid, task_id, task_token) + terminal_id;
    let text = terminal_text(scheme, host, port, agent_uuid, task_id, task_token, terminal_id);
    assert(crate::outside::small_word("terminal"@)) by {
        reveal_strlit("terminal");
    }
    assert("/"@ + "terminal"@ =~= "/terminal"@) by {
        reveal_strlit("terminal");
        reveal_strlit("/");
        reveal_strlit("/terminal");
    }
    assert("/terminal?agent_uuid="@ =~= "/"@ + "terminal"@ + "?"@ + "agent_uuid="@) by {
        reveal_strlit("terminal");
        reveal_strlit("/");
        reveal_strlit("?");
        reveal_strlit("/terminal?agent_uuid=");
        reveal_strlit("agent_uuid=");
    }
    assert(text =~= scheme + "://"@ + host + ":"@ + crate::text::decimal(port as nat) + "/"@
        + "terminal"@ + "?"@ + rest);
}

/// Where the token stands for itself, the query of a generated URL begins with agent, task and
/// token, and then has the id.
proof fn lemma_agent_task_and_token(
    agent_uuid: u128,
    task_id: u64,
    task_token: Seq<char>,
    terminal_id: Seq<char>,
)
    requires
        plain_token(task_token),
    ensures
        ({
            let pairs = task_pairs(agent_uuid, task_id, task_token);
            let rest = terminal_query(agent_uuid, task_id, task_token) + terminal_id;
            let query = crate::outside::query_encoded(crate::outside::query_part(rest));
            let written = crate::outside::query_encoded(crate::outside::query_part(terminal_id));
            &&& crate::outside::begins_with(
                query,
                pairs,
                "terminal_id"@ + seq!['='] + written,
            )
            &&& pairs.filter(named_otherwise("terminal_id"@)) == pairs
            &&& !terminal_id.contains('&') ==> crate::outside::ends_with(
                query,
                pairs,
                "terminal_id"@,
                written,
            )
        }),
{
    let first = terminal_query(agent_uuid, task_id, task_token);
    let rest = first + terminal_id;
    let pairs = task_pairs(agent_uuid, task_id, task_token);
    let written = crate::outside::query_encoded(crate::outside::query_part(terminal_id));
    lemma_names();
    lemma_first_part(agent_uuid, task_id, task_token);
    lemma_query_part(first, terminal_id);
    lemma_encoded_add(first, crate::outside::query_part(terminal_id));
    assert(crate::outside::query_encoded(crate::outside::query_part(rest))
        =~= crate::outside::raw_query(pairs) + seq!['&'] + ("terminal_id"@ + seq!['=']
        + written));
    if !terminal_id.contains('&') {
        lemma_encoded_lacks_ampersand(crate::outside::query_part(terminal_id));
    }
    let other = named_otherwise("terminal_id"@);
    assert forall|i: int| 0 <= i < pairs.len() implies other(#[trigger] pairs[i]) by {}
    lemma_filter_all(pairs, other);
}

/// Whether a text in front of a query is neither cut off nor passed over.
spec fn unbroken(s: Seq<char>) -> bool {
    &&& s.len() > 0
    &&& s.last() > ' '
    &&& !s.contains('#')
    &&& forall|i: int| 0 <= i < s.len() ==> !crate::outside::passed_over(#[trigger] s[i])
}

proof fn lemma_plain_is_unbroken(s: Seq<char>)
    requires
        plain_query(s),
        s.len() > 0,
    ensures
        unbroken(s),
{
    assert(crate::outside::query_unchanged(s[s.len() - 1]));
    assert forall|i: int| 0 <= i < s.len() implies !crate::outside::passed_over(#[trigger] s[i])
        && s[i] != '#' by {
        assert(crate::outside::query_unchanged(s[i]));
    }
}

/// What stands before the token in a generated query.
#[verifier::opaque]
spec fn before_token(agent_uuid: u128, task_id: u64) -> Seq<char> {
    "agent_uuid"@ + seq!['='] + crate::outside::uuid_text(agent_uuid) + seq!['&'] + "task_id"@
        + seq!['='] + crate::text::decimal(task_id as nat) + seq!['&'] + "task_token"@ + seq!['=']
}

/// What stands between the token and the id in a generated query.
#[verifier::opaque]
spec fn before_id() -> Seq<char> {
    seq!['&'] + "terminal_id"@ + seq!['=']
}

/// A generated query, part by part.
proof fn lemma_query_parts(agent_uuid: u128, task_id: u64, task_token: Seq<char>)
    ensures
        terminal_query(agent_uuid, task_id, task_token) == before_token(agent_uuid, task_id)
            + task_token + before_id(),
        before_id() == "&terminal_id="@,
{
    reveal(before_token);
    reveal(before_id);
    assert("agent_uuid="@ =~= "agent_uuid"@ + seq!['=']) by {
        reveal_strlit("agent_uuid=");
        reveal_strlit("agent_uuid");
    }
    assert("&task_id="@ =~= seq!['&'] + "task_id"@ + seq!['=']) by {
        reveal_strlit("&task_id=");
        reveal_strlit("task_id");
    }
    assert("&task_token="@ =~= seq!['&'] + "task_token"@ + seq!['=']) by {
        reveal_strlit("&task_token=");
        reveal_strlit("task_token");
    }
    assert("&terminal_id="@ =~= seq!['&'] + "terminal_id"@ + seq!['=']) by {
        reveal_strlit("&terminal_id=");
        reveal_strlit("terminal_id");
    }
    assert(terminal_query(agent_uuid, task_id, task_token) =~= before_token(agent_uuid, task_id)
        + task_token + before_id());
}

/// UUID and number of a generated query need no encoding and stand for themselves.
proof fn lemma_values(agent_uuid: u128, task_id: u64)
    ensures
        plain_query(crate::outside::uuid_text(agent_uuid)),
        plain_token(crate::outside::uuid_text(agent_uuid)),
        plain_query(crate::text::decimal(task_id as nat)),
        plain_token(crate::text::decimal(task_id as nat)),
{
    crate::auto_uuid::lemma_uuid_text(agent_uuid);
    lemma_decimal(task_id as nat);
    lemma_word_reads_as_itself(crate::outside::uuid_text(agent_uuid));
    lemma_word_reads_as_itself(crate::text::decimal(task_id as nat));
}

/// The part of a generated query before the token needs no encoding; it is the pairs of agent and
/// task with the name `task_token` behind them.
proof fn lemma_before_token(agent_uuid: u128, task_id: u64, task_token: Seq<char>)
    ensures
        plain_query(before_token(agent_uuid, task_id)),
        unbroken(before_token(agent_uuid, task_id)),
        crate::outside::raw_pairs(task_pairs(agent_uuid, task_id, task_token).take(2)),
        before_token(agent_uuid, task_id) == crate::outside::raw_query(
            task_pairs(agent_uuid, task_id, task_token).take(2),
        ) + seq!['&'] + "task_token"@ + seq!['='],
{
    let uuid = crate::outside::uuid_text(agent_uuid);
    let number = crate::text::decimal(task_id as nat);
    let pairs = task_pairs(agent_uuid, task_id, task_token).take(2);
    reveal(before_token);
    lemma_names();
    lemma_values(agent_uuid, task_id);
    lemma_plain_first(uuid, number);
    lemma_plain_is_unbroken(before_token(agent_uuid, task_id));
    lemma_encoded_plain("agent_uuid"@);
    lemma_encoded_plain("task_id"@);
    lemma_encoded_plain(uuid);
    lemma_encoded_plain(number);
    let p1 = seq![("agent_uuid"@, uuid)];
    assert(pairs =~= p1.push(("task_id"@, number)));
    assert(pairs.drop_last() =~= p1);
    assert(crate::outside::raw_query(p1) =~= "agent_uuid"@ + seq!['='] + uuid);
    assert(crate::outside::raw_query(pairs) =~= "agent_uuid"@ + seq!['='] + uuid + seq!['&']
        + "task_id"@ + seq!['='] + number);
    assert(before_token(agent_uuid, task_id) =~= crate::outside::raw_query(pairs) + seq!['&']
        + "task_token"@ + seq!['=']);
}

/// The query of a generated URL begins with agent and task, whatever the token is.
proof fn lemma_agent_and_task(
    agent_uuid: u128,
    task_id: u64,
    task_token: Seq<char>,
    terminal_id: Seq<char>,
)
    ensures
        ({
            let pairs = task_pairs(agent_uuid, task_id, task_token).take(2);
            let rest = terminal_query(agent_uuid, task_id, task_token) + terminal_id;
            let behind = crate::outside::query_part(
                task_token + "&terminal_id="@ + terminal_id,
            );
            &&& crate::outside::begins_with(
                crate::outside::query_encoded(crate::outside::query_part(rest)),
                pairs,
                "task_token"@ + seq!['='] + crate::outside::query_encoded(behind),
            )
            &&& pairs.filter(named_otherwise("terminal_id"@)) == pairs
        }),
{
    let pairs = task_pairs(agent_uuid, task_id, task_token).take(2);
    let first = before_token(agent_uuid, task_id);
    let more = task_token + "&terminal_id="@ + terminal_id;
    let rest = terminal_query(agent_uuid, task_id, task_token) + terminal_id;
    lemma_query_parts(agent_uuid, task_id, task_token);
    assert(rest =~= first + more);
    lemma_before_token(agent_uuid, task_id, task_token);
    lemma_query_part(first, more);
    lemma_encoded_add(first, crate::outside::query_part(more));
    lemma_encoded_plain(first);
    assert(crate::outside::query_encoded(crate::outside::query_part(rest))
        =~= crate::outside::raw_query(pairs) + seq!['&'] + ("task_token"@ + seq!['=']
        + crate::outside::query_encoded(crate::outside::query_part(more))));
    lemma_names();
    let other = named_otherwise("terminal_id"@);
    assert forall|i: int| 0 <= i < pairs.len() implies other(#[trigger] pairs[i]) by {
        assert(pairs[i] == task_pairs(agent_uuid, task_id, task_token)[i]);
    }
    lemma_filter_all(pairs, other);
}

/// A number sign behind the question mark of a generated URL comes from token or id.
proof fn lemma_number_sign(
    agent_uuid: u128,
    task_id: u64,
    task_token: Seq<char>,
    terminal_id: Seq<char>,
)
    ensures
        (terminal_query(agent_uuid, task_id, task_token) + terminal_id).contains('#')
            <==> task_token.contains('#') || terminal_id.contains('#'),
{
    let first = before_token(agent_uuid, task_id);
    let middle = before_id();
    let rest = terminal_query(agent_uuid, task_id, task_token) + terminal_id;
    lemma_query_parts(agent_uuid, task_id, task_token);
    lemma_before_token(agent_uuid, task_id, task_token);
    lemma_before_id();
    assert(rest =~= first + task_token + middle + terminal_id);
    if task_token.contains('#') {
        let i = choose|i: int| 0 <= i < task_token.len() && task_token[i] == '#';
        assert(rest[first.len() + i] == '#');
    }
    if terminal_id.contains('#') {
        let i = choose|i: int| 0 <= i < terminal_id.len() && terminal_id[i] == '#';
        assert(rest[first.len() + task_token.len() + middle.len() + i] == '#');
    }
    if !task_token.contains('#') && !terminal_id.contains('#') {
        lemma_lacks_add(first, task_token, '#');
        lemma_lacks_add(first + task_token, middle, '#');
        lemma_lacks_add(first + task_token + middle, terminal_id, '#');
    }
}

proof fn lemma_before_id()
    ensures
        plain_query(before_id()),
        unbroken(before_id()),
        before_id() == seq!['&'] + "terminal_id"@ + seq!['='],
{
    reveal(before_id);
    lemma_names();
    assert(plain_query(seq!['=']));
    assert(plain_query(seq!['&']));
    lemma_plain_add(seq!['&'], "terminal_id"@);
    lemma_plain_add(seq!['&'] + "terminal_id"@, seq!['=']);
    lemma_plain_is_unbroken(before_id());
}

/// The part of a generated query before the terminal's id is neither cut off nor passed over, and
/// encoded it is the pairs of agent, task and token with the name `terminal_id` behind them.
proof fn lemma_first_part(agent_uuid: u128, task_id: u64, task_token: Seq<char>)
    requires
        plain_token(task_token),
    ensures
        unbroken(terminal_query(agent_uuid, task_id, task_token)),
        crate::outside::raw_pairs(task_pairs(agent_uuid, task_id, task_token)),
        crate::outside::query_encoded(terminal_query(agent_uuid, task_id, task_token))
            == crate::outside::raw_query(task_pairs(agent_uuid, task_id, task_token)) + seq!['&']
            + "terminal_id"@ + seq!['='],
{
    let raw = crate::outside::raw_query(task_pairs(agent_uuid, task_id, task_token));
    let a = before_token(agent_uuid, task_id);
    let z = before_id();
    lemma_query_parts(agent_uuid, task_id, task_token);
    lemma_before_token(agent_uuid, task_id, task_token);
    lemma_before_id();
    lemma_unbroken_around(a, task_token, z);
    lemma_encoded_add(a + task_token, z);
    lemma_encoded_add(a, task_token);
    lemma_encoded_plain(a);
    lemma_encoded_plain(z);
    lemma_task_pairs_raw(agent_uuid, task_id, task_token);
    assert(raw + z =~= raw + seq!['&'] + "terminal_id"@ + seq!['=']);
}

/// Agent, task and token as raw pairs.
proof fn lemma_task_pairs_raw(agent_uuid: u128, task_id: u64, task_token: Seq<char>)
    requires
        plain_token(task_token),
    ensures
        crate::outside::raw_pairs(task_pairs(agent_uuid, task_id, task_token)),
        crate::outside::raw_query(task_pairs(agent_uuid, task_id, task_token)) == before_token(
            agent_uuid,
            task_id,
        ) + crate::outside::query_encoded(task_token),
{
    let pairs = task_pairs(agent_uuid, task_id, task_token);
    let first = crate::outside::raw_query(pairs.take(2));
    let token = crate::outside::query_encoded(task_token);
    lemma_before_token(agent_uuid, task_id, task_token);
    assert(crate::outside::raw_pairs(pairs)) by {
        lemma_names();
        assert forall|i: int| 0 <= i < pairs.len() implies crate::outside::reads_as_itself(
            (#[trigger] pairs[i]).0,
        ) && crate::outside::reads_as_itself(pairs[i].1) && !pairs[i].0.contains('=') by {
            if i < 2 {
                assert(pairs[i] == pairs.take(2)[i]);
            }
        }
    }
    assert(pairs.drop_last() =~= pairs.take(2));
    assert(crate::outside::query_encoded("task_token"@) == "task_token"@) by {
        lemma_names();
        lemma_encoded_plain("task_token"@);
    }
    assert(first.push('&') + "task_token"@ + seq!['='] + token =~= first + seq!['&']
        + "task_token"@ + seq!['='] + token);
}

/// A token that stands for itself, between two texts that are neither cut off nor passed over.
proof fn lemma_unbroken_around(a: Seq<char>, token: Seq<char>, z: Seq<char>)
    requires
        unbroken(a),
        plain_token(token),
        unbroken(z),
    ensures
        unbroken(a + token + z),
{
    let all = a + token + z;
    lemma_lacks_add(a, token, '#');
    lemma_lacks_add(a + token, z, '#');
    assert(all.last() == z.last());
    assert forall|i: int| 0 <= i < all.len() implies !crate::outside::passed_over(
        #[trigger] all[i],
    ) by {
        if i < a.len() {
            assert(all[i] == a[i]);
        } else if i < a.len() + token.len() {
            assert(all[i] == token[i - a.len()]);
        } else {
            assert(all[i] == z[i - a.len() - token.len()]);
        }
    }
}

/// What stands before the token in a generated query needs no encoding.
proof fn lemma_plain_first(uuid: Seq<char>, number: Seq<char>)
    requires
        plain_query(uuid),
        plain_query(number),
    ensures
        plain_query(
            "agent_uuid"@ + seq!['='] + uuid + seq!['&'] + "task_id"@ + seq!['='] + number + seq![
                '&',
            ] + "task_token"@ + seq!['='],
        ),
{
    lemma_names();
    let s1 = "agent_uuid"@ + seq!['='];
    let s2 = s1 + uuid;
    let s3 = s2 + seq!['&'];
    let s4 = s3 + "task_id"@;
    let s5 = s4 + seq!['='];
    let s6 = s5 + number;
    let s7 = s6 + seq!['&'];
    let s8 = s7 + "task_token"@;
    assert(plain_query(seq!['=']));
    assert(plain_query(seq!['&']));
    lemma_plain_add("agent_uuid"@, seq!['=']);
    lemma_plain_add(s1, uuid);
    lemma_plain_add(s2, seq!['&']);
    lemma_plain_add(s3, "task_id"@);
    lemma_plain_add(s4, seq!['=']);
    lemma_plain_add(s5, number);
    lemma_plain_add(s6, seq!['&']);
    lemma_plain_add(s7, "task_token"@);
    lemma_plain_add(s8, seq!['=']);
}

proof fn lemma_plain_add(a: Seq<char>, b: Seq<char>)
    requires
        plain_query(a),
        plain_query(b),
    ensures
        plain_query(a + b),
{
    assert forall|i: int| 0 <= i < (a + b).len() implies crate::outside::query_unchanged(
        #[trigger] (a + b)[i],
    ) by {
        if i < a.len() {
            assert(crate::outside::query_unchanged(a[i]));
        } else {
            assert(crate::outside::query_unchanged(b[i - a.len()]));
        }
    }
}

/// Pairs at the beginning stay there when a parameter of another name is set.
proof fn lemma_prefix_stays(
    first: Seq<(Seq<char>, Seq<char>)>,
    pairs: Seq<(Seq<char>, Seq<char>)>,
    key: Seq<char>,
    value: Seq<char>,
)
    requires
        first.is_prefix_of(pairs),
    ensures
        first.filter(named_otherwise(key)).is_prefix_of(replaced_pairs(pairs, key, value)),
{
    let other = named_otherwise(key);
    let rest = pairs.skip(first.len() as int);
    assert(first + rest =~= pairs);
    Seq::filter_distributes_over_add(first, rest, other);
}

/// A last pair of the name of a parameter gives way when the parameter is set.
proof fn lemma_last_replaced(
    first: Seq<(Seq<char>, Seq<char>)>,
    pairs: Seq<(Seq<char>, Seq<char>)>,
    key: Seq<char>,
    value: Seq<char>,
)
    requires
        pairs.len() == first.len() + 1,
        first.is_prefix_of(pairs),
        pairs.last().0 == key,
    ensures
        replaced_pairs(pairs, key, value) == replaced_pairs(first, key, value),
{
    assert(pairs.drop_last() =~= first);
    reveal(Seq::filter);
}

/// Once a parameter is set, its pair is the last and no other pair has its name; the pairs of
/// other names are those from before, in their order.
pub proof fn law_param_is_last(
    pairs: Seq<(Seq<char>, Seq<char>)>,
    key: Seq<char>,
    value: Seq<char>,
)
    ensures
        replaced_pairs(pairs, key, value).last() == (key, value),
        forall|i: int|
            0 <= i < replaced_pairs(pairs, key, value).len() - 1 ==> (#[trigger] replaced_pairs(
                pairs,
                key,
                value,
            )[i]).0 != key,
        replaced_pairs(pairs, key, value).filter(named_otherwise(key)) == pairs.filter(
            named_otherwise(key),
        ),
{
    let other = named_otherwise(key);
    let kept = pairs.filter(other);
    assert forall|i: int| 0 <= i < kept.len() implies other(#[trigger] kept[i]) by {
        pairs.lemma_filter_pred(other, i);
    }
    lemma_filter_all(kept, other);
    reveal(Seq::filter);
    assert(kept.push((key, value)).drop_last() =~= kept);
}

/// A filter that picks everything changes nothing.
proof fn lemma_filter_all(
    pairs: Seq<(Seq<char>, Seq<char>)>,
    pick: spec_fn((Seq<char>, Seq<char>)) -> bool,
)
    requires
        forall|i: int| 0 <= i < pairs.len() ==> pick(#[trigger] pairs[i]),
    ensures
        pairs.filter(pick) == pairs,
    decreases pairs.len(),
{
    reveal(Seq::filter);
    if pairs.len() > 0 {
        lemma_filter_all(pairs.drop_last(), pick);
        assert(pairs.drop_last().push(pairs.last()) =~= pairs);
    }
}

/// Setting a parameter again to the same value changes nothing, where the query that was written
/// reads as its pairs.
proof fn lemma_param_set_twice(url: UrlParts, key: Seq<char>, value: Seq<char>)
    requires
        crate::outside::form_parsed(query_text(with_param(url, key, value))) == param_pairs(
            url,
            key,
            value,
        ),
    ensures
        with_param(with_param(url, key, value), key, value) == with_param(url, key, value),
{
    law_param_is_last(crate::outside::form_parsed(query_text(url)), key, value);
}

/// Setting a parameter changes nothing of a URL but its query, and the query's text comes from the
/// pairs alone.
pub proof fn law_param_leaves_the_rest(url: UrlParts, key: Seq<char>, value: Seq<char>)
    ensures
        url_text(with_param(url, key, value)) == url.scheme + url.authority + url.path + seq!['?']
            + crate::outside::form_query(param_pairs(url, key, value)) + marked('#', url.fragment),
{
    assert(url_text(with_param(url, key, value)) =~= url.scheme + url.authority + url.path + seq![
        '?',
    ] + crate::outside::form_query(param_pairs(url, key, value)) + marked('#', url.fragment));
}

/// Setting a parameter leaves out just the pairs that have its name: the others are there as they
/// were, as often and in the same order, and the new pair comes last. The result holds the index
/// at which each of the others stood.
pub proof fn law_other_pairs_stay(
    pairs: Seq<(Seq<char>, Seq<char>)>,
    key: Seq<char>,
    value: Seq<char>,
) -> (at: Seq<int>)
    ensures
        replaced_pairs(pairs, key, value).len() == at.len() + 1,
        replaced_pairs(pairs, key, value).last() == (key, value),
        forall|i: int, j: int|
            #![trigger at[i], at[j]]
            0 <= i < j < at.len() ==> at[i] < at[j],
        forall|i: int|
            0 <= i < at.len() ==> {
                &&& 0 <= #[trigger] at[i] < pairs.len()
                &&& pairs[at[i]].0 != key
                &&& replaced_pairs(pairs, key, value)[i] == pairs[at[i]]
            },
        forall|k: int|
            0 <= k < pairs.len() && (#[trigger] pairs[k]).0 != key ==> at.contains(k),
    decreases pairs.len(),
{
    reveal(Seq::filter);
    if pairs.len() == 0 {
        seq![]
    } else {
        let front = pairs.drop_last();
        let last = pairs.len() - 1;
        let rest = law_other_pairs_stay(front, key, value);
        let kept = front.filter(named_otherwise(key));
        assert forall|i: int| 0 <= i < rest.len() implies kept[i] == pairs[#[trigger] rest[i]] by {
            assert(replaced_pairs(front, key, value)[i] == kept[i]);
            assert(front[rest[i]] == pairs[rest[i]]);
        }
        let at = if pairs[last].0 != key {
            rest.push(last)
        } else {
            rest
        };
        assert forall|i: int| 0 <= i < at.len() implies {
            &&& 0 <= #[trigger] at[i] < pairs.len()
            &&& pairs[at[i]].0 != key
            &&& replaced_pairs(pairs, key, value)[i] == pairs[at[i]]
        } by {
            if i < rest.len() {
                assert(at[i] == rest[i]);
                assert(front[rest[i]] == pairs[rest[i]]);
            }
        }
        assert forall|k: int|
            0 <= k < pairs.len() && (#[trigger] pairs[k]).0 != key implies at.contains(k) by {
            if k < last {
                assert(front[k] == pairs[k]);
                let i = choose|i: int| 0 <= i < rest.len() && rest[i] == k;
                assert(at[i] == k);
            } else {
                assert(at[rest.len() as int] == k);
            }
        }
        at
    }
}

/// The parts of a URL are its fields, each as text.
pub proof fn law_url_parts(url: SocketUrl)
    ensures
        url@.scheme == url.scheme@,
        url@.authority == url.authority@,
        url@.port == url.port,
        url@.path == url.path@,
        match url.host {
            Some(host) => url@.host == Some(host@),
            None => url@.host is None,
        },
        match url.query {
            Some(query) => url@.query == Some(query@),
            None => url@.query is None,
        },
        match url.fragment {
            Some(fragment) => url@.fragment == Some(fragment@),
            None => url@.fragment is None,
        },
{
}

/// A query is written pair by pair: no pairs give an empty query, and one more pair stands behind
/// the others in the form syntax.
pub proof fn law_form_query(
    pairs: Seq<(Seq<char>, Seq<char>)>,
    name: Seq<char>,
    value: Seq<char>,
)
    ensures
        crate::outside::form_query(seq![]) == Seq::<char>::empty(),
        crate::outside::form_query(pairs.push((name, value))) == crate::outside::form_append(
            crate::outside::form_query(pairs),
            name,
            value,
        ),
{
    assert(pairs.push((name, value)).drop_last() =~= pairs);
}

} // verus!
