use nodeget_agent::config::{AgentConfig, SharedConfig};
use nodeget_agent::socket_url::{
    finish_url, generate_text, parse_url, replace_pairs, set_or_replace_query_param, SocketUrl,
};

const ID: u128 = 0x67e5504410b1426f9247bb680e5fe0c8;

fn config() -> AgentConfig {
    AgentConfig {
        log_level: None,
        dynamic_report_interval_ms: None,
        dynamic_summary_report_interval_ms: None,
        static_report_interval_ms: None,
        agent_uuid: ID,
        connect_timeout_ms: None,
        exec_max_character: None,
        terminal_shell: None,
        ip_provider: None,
        ntp_server: None,
        server: None,
    }
}

fn url(text: &str) -> SocketUrl {
    SocketUrl::parse(text).unwrap()
}

fn pair(name: &str, value: &str) -> (String, String) {
    (name.to_owned(), value.to_owned())
}

#[test]
fn parts_make_up_the_text() {
    for text in [
        "ws://example.com/",
        "wss://user:pw@example.com:8443/a/b?x=1&y=%20#top",
        "ws://[::1]:9000/auto_gen?#",
        "mailto:someone@example.com?subject=x",
        "ws://example.com/?#f?g#h",
    ] {
        assert_eq!(url(text).text(), text);
        assert_eq!(url::Url::parse(text).unwrap().as_str(), text);
    }
    let u = url("WSS://user@Example.com:8443/p?q#f");
    assert_eq!(u.scheme, "wss");
    assert_eq!(u.authority, "://user@example.com:8443");
    assert_eq!(u.host.as_deref(), Some("example.com"));
    assert_eq!(u.port, Some(8443));
    assert_eq!(u.path, "/p");
    assert_eq!(u.query.as_deref(), Some("q"));
    assert_eq!(u.fragment.as_deref(), Some("f"));
    assert_eq!(url("ws://h").port, Some(80));
    assert_eq!(url("wss://h").port, Some(443));
    let m = url("mailto:a@b");
    assert_eq!(m.host, None);
    assert_eq!(m.port, None);
}

#[test]
fn broken_urls_are_refused() {
    assert_eq!(SocketUrl::parse("/x").unwrap_err(), "relative URL without a base");
    assert_eq!(SocketUrl::parse("ws://").unwrap_err(), "empty host");
    assert_eq!(SocketUrl::parse("ws://h:99999/").unwrap_err(), "invalid port number");
}

#[test]
fn parameters_are_replaced_as_in_a_url() {
    for text in [
        "ws://h/",
        "ws://h/?",
        "ws://h/?a=1&k=2&b=3&k=4#frag",
        "ws://h/?&&=&x&k&y=a=b",
        "ws://h/?%6b=1&K=2&c=%C3%A9+%2B%ff",
    ] {
        for value in ["", "v", "a b&c=d+e%\u{e9}#?'*-._~"] {
            let mut ours = url(text);
            set_or_replace_query_param(&mut ours, "k", value);

            let mut theirs = url::Url::parse(text).unwrap();
            let pairs: Vec<(String, String)> = theirs
                .query_pairs()
                .into_owned()
                .filter(|(k, _)| k != "k")
                .collect();
            theirs
                .query_pairs_mut()
                .clear()
                .extend_pairs(pairs)
                .append_pair("k", value);

            assert_eq!(ours.text(), theirs.as_str());
            let read: Vec<(String, String)> = theirs.query_pairs().into_owned().collect();
            assert_eq!(read.last(), Some(&pair("k", value)));
            assert_eq!(read.iter().filter(|(k, _)| k == "k").count(), 1);

            let once = ours.text();
            set_or_replace_query_param(&mut ours, "k", value);
            assert_eq!(ours.text(), once);
        }
    }
}

#[test]
fn parameter_text_is_form_encoded() {
    let mut u = url("ws://h/p?a=%26#f");
    set_or_replace_query_param(&mut u, "terminal_id", "t 1/\u{e9}");
    assert_eq!(u.text(), "ws://h/p?a=%26&terminal_id=t+1%2F%C3%A9#f");
}

#[test]
fn pairs_of_the_name_give_way() {
    let pairs = vec![pair("a", "1"), pair("k", "2"), pair("K", "3"), pair("k", "4")];
    assert_eq!(
        replace_pairs(&pairs, "k", "v"),
        vec![pair("a", "1"), pair("K", "3"), pair("k", "v")]
    );
    assert_eq!(replace_pairs(&vec![], "k", ""), vec![pair("k", "")]);
}

#[test]
fn other_schemes_are_refused() {
    let config = config();
    let ready = SharedConfig::Ready(&config);
    assert_eq!(
        parse_url(url("http://h/auto_gen"), 1, "t", "i", &ready).unwrap_err(),
        "Invalid scheme: http"
    );
    assert_eq!(
        parse_url(url("wsx://h/"), 1, "t", "i", &SharedConfig::Uninitialized).unwrap_err(),
        "Invalid scheme: wsx"
    );
}

#[test]
fn other_paths_keep_their_url() {
    for shared in [SharedConfig::Uninitialized, SharedConfig::Poisoned] {
        let target = parse_url(
            url("wss://h:1234/terminal?x=1&terminal_id=old#f"),
            7,
            "token",
            "new",
            &shared,
        )
        .unwrap();
        assert_eq!(target.text(), "wss://h:1234/terminal?x=1&terminal_id=new#f");
    }
}

#[test]
fn auto_gen_path_is_generated() {
    let config = config();
    let ready = SharedConfig::Ready(&config);
    let target = parse_url(url("ws://example.com/auto_gen?x=1#f"), 42, "tok", "term", &ready).unwrap();
    assert_eq!(
        target.text(),
        "ws://example.com:80/terminal?agent_uuid=67e55044-10b1-426f-9247-bb680e5fe0c8&task_id=42&task_token=tok&terminal_id=term"
            .replace(":80/", "/")
    );
    assert_eq!(target.scheme, "ws");
    let target = parse_url(url("wss://[::1]:9000/auto_gen"), u64::MAX, "a&b=c", "x y", &ready).unwrap();
    assert_eq!(
        target.text(),
        "wss://[::1]:9000/terminal?agent_uuid=67e55044-10b1-426f-9247-bb680e5fe0c8&task_id=18446744073709551615&task_token=a&b=c&terminal_id=x+y"
    );
    assert_eq!(target.path, "/terminal");
}

#[test]
fn generated_text_spells_everything_out() {
    let config = config();
    assert_eq!(
        generate_text(&url("wss://h/auto_gen"), 5, "tok", "term", &SharedConfig::Ready(&config)).unwrap(),
        "wss://h:443/terminal?agent_uuid=67e55044-10b1-426f-9247-bb680e5fe0c8&task_id=5&task_token=tok&terminal_id=term"
    );
    let mut low = config.clone();
    low.agent_uuid = 0xabcdef;
    assert_eq!(
        generate_text(&url("ws://h:1/auto_gen"), 0, "", "", &SharedConfig::Ready(&low)).unwrap(),
        "ws://h:1/terminal?agent_uuid=00000000-0000-0000-0000-000000abcdef&task_id=0&task_token=&terminal_id="
    );
}

#[test]
fn generating_needs_config_host_and_port() {
    let config = config();
    let auto = url("ws://h/auto_gen");
    assert_eq!(
        parse_url(auto.clone(), 1, "t", "i", &SharedConfig::Uninitialized).unwrap_err(),
        "Agent config not initialized"
    );
    assert_eq!(
        parse_url(auto.clone(), 1, "t", "i", &SharedConfig::Poisoned).unwrap_err(),
        "Agent Config lock poisoned"
    );
    let ready = SharedConfig::Ready(&config);
    let mut hostless = auto.clone();
    hostless.host = None;
    hostless.port = None;
    assert_eq!(
        parse_url(hostless, 1, "t", "i", &ready).unwrap_err(),
        "Invalid host: ws://h/auto_gen"
    );
    let mut portless = auto.clone();
    portless.port = None;
    assert_eq!(
        parse_url(portless, 1, "t", "i", &ready).unwrap_err(),
        "Invalid port: ws://h/auto_gen"
    );
    let mut broken = auto;
    broken.host = Some("a b".to_owned());
    assert_eq!(
        parse_url(broken, 1, "t", "i", &ready).unwrap_err(),
        "Invalid URL: invalid international domain name"
    );
}

#[test]
fn parse_errors_are_named() {
    assert_eq!(
        finish_url(Err("empty host".to_owned()), "i").unwrap_err(),
        "Invalid URL: empty host"
    );
    assert_eq!(
        finish_url(Ok(url("ws://h/")), "i").unwrap().text(),
        "ws://h/?terminal_id=i"
    );
}

#[test]
fn generated_url_names_agent_task_and_terminal() {
    let config = config();
    let ready = SharedConfig::Ready(&config);
    let target = parse_url(url("wss://[::1]:9000/auto_gen?a=b#f"), 3, "A-z_0.9*", "t-1", &ready).unwrap();
    assert_eq!(target.scheme, "wss");
    assert_eq!(target.path, "/terminal");
    assert_eq!(target.fragment, None);
    let read: Vec<(String, String)> = url::Url::parse(&target.text())
        .unwrap()
        .query_pairs()
        .into_owned()
        .collect();
    assert_eq!(
        read,
        vec![
            pair("agent_uuid", "67e55044-10b1-426f-9247-bb680e5fe0c8"),
            pair("task_id", "3"),
            pair("task_token", "A-z_0.9*"),
            pair("terminal_id", "t-1"),
        ]
    );
}

#[test]
fn plain_texts_keep_their_path_and_query() {
    for authority in ["h", "u:p@h:1", "[::1]:9", "1.2.3.4", "\u{e9}.example:80"] {
        for rest in ["", "a=1&b", "!$%()*+,-./:;=?@[]^_`{|}~\\&az09", "%zz?"] {
            let u = url(&format!("ws://{authority}/word?{rest}"));
            assert_eq!(u.scheme, "ws");
            assert_eq!(u.path, "/word");
            assert_eq!(u.query.as_deref(), Some(rest));
            assert_eq!(u.fragment, None);
        }
        for rest in ["#f", "a b \t", "\"<>'#x?y", "\u{20ac}\n/x"] {
            let u = url(&format!("wss://{authority}/word?{rest}"));
            assert_eq!(u.scheme, "wss");
            assert_eq!(u.path, "/word");
        }
    }
}

#[test]
fn generated_url_keeps_host_and_port() {
    let config = config();
    let ready = SharedConfig::Ready(&config);
    for (text, authority) in [
        ("ws://example.com/auto_gen", "://example.com"),
        ("ws://example.com:443/auto_gen", "://example.com:443"),
        ("wss://a-1.b2.c-d3:443/auto_gen", "://a-1.b2.c-d3"),
        ("wss://user:pw@h:80/auto_gen", "://h:80"),
        ("ws://163.com/auto_gen", "://163.com"),
        ("ws://1.2.3.4a:9/auto_gen", "://1.2.3.4a:9"),
        ("ws://-a_b-.0x1._c--d/auto_gen", "://-a_b-.0x1._c--d"),
        ("ws://a..b.example.:7/auto_gen", "://a..b.example.:7"),
        ("ws://./auto_gen", "://."),
        ("ws://0xg.0x1z/auto_gen", "://0xg.0x1z"),
        ("ws://!\"$&'()*+,-;=_`{}~/auto_gen", "://!\"$&'()*+,-;=_`{}~"),
        ("wss://xn--bcher-kva.example:1/auto_gen", "://xn--bcher-kva.example:1"),
        ("ws://[::]/auto_gen", "://[::]"),
        ("ws://[1:0:0:2::ffff]:81/auto_gen", "://[1:0:0:2::ffff]:81"),
        ("ws://[::ffff:1.2.3.4]/auto_gen", "://[::ffff:102:304]"),
        ("ws://127.0.0.1:0/auto_gen", "://127.0.0.1:0"),
        ("wss://255.1.20.0/auto_gen", "://255.1.20.0"),
        ("ws://[2001:db8::1]:65535/auto_gen", "://[2001:db8::1]:65535"),
        ("ws://b\u{fc}cher.example/auto_gen", "://xn--bcher-kva.example"),
    ] {
        let from = url(text);
        let target = parse_url(from.clone(), 1, "t", "i", &ready).unwrap();
        assert_eq!(target.scheme, from.scheme);
        assert_eq!(target.host, from.host);
        assert_eq!(target.port, from.port);
        assert_eq!(target.authority, authority);
        assert_eq!(target.path, "/terminal");
        assert_eq!(read(&target).len(), 4);
    }
}

fn read(target: &SocketUrl) -> Vec<(String, String)> {
    url::Url::parse(&target.text())
        .unwrap()
        .query_pairs()
        .into_owned()
        .collect()
}

#[test]
fn generated_url_names_any_token_that_stands_for_itself() {
    let config = config();
    let ready = SharedConfig::Ready(&config);
    let uuid = "67e55044-10b1-426f-9247-bb680e5fe0c8";
    for token in ["", "a b", "100%", "%4", "%zz%", "=x=?/", "\u{e9}\u{20ac}\"<>'`{}|\\^", "\u{0}\u{7f}", "%\u{e9}", " "] {
        for id in ["", "t-1", "x#y", "a+b%41 ", "\t\r\n", "\u{1}  ", "q\u{1f600}\u{2028}"] {
            let target = parse_url(url("ws://h:7/auto_gen"), 9, token, id, &ready).unwrap();
            assert_eq!(
                read(&target),
                vec![
                    pair("agent_uuid", uuid),
                    pair("task_id", "9"),
                    pair("task_token", token),
                    pair("terminal_id", id),
                ]
            );
            assert_eq!(target.fragment.is_some(), id.contains('#'));
        }
        for id in ["x&y=z", "&", "a&terminal_id=b&c#d&e"] {
            let target = parse_url(url("ws://h:7/auto_gen"), 9, token, id, &ready).unwrap();
            let pairs = read(&target);
            assert_eq!(
                pairs[..3],
                [pair("agent_uuid", uuid), pair("task_id", "9"), pair("task_token", token)]
            );
            assert_eq!(pairs.last(), Some(&pair("terminal_id", id)));
        }
    }
}

#[test]
fn other_tokens_read_otherwise() {
    let config = config();
    let ready = SharedConfig::Ready(&config);
    for (token, value) in [("a+b", "a b"), ("%41", "A"), ("a&b=c", "a"), ("a\tb", "ab")] {
        let target = parse_url(url("ws://h/auto_gen"), 9, token, "i", &ready).unwrap();
        assert_eq!(read(&target)[2], pair("task_token", value));
    }
}

#[test]
fn text_behind_the_question_mark_is_encoded() {
    for (rest, query, fragment) in [
        ("a b \t", "a%20b", None),
        ("a\t=\r\nb", "a=b", None),
        ("\"<>'", "%22%3C%3E%27", None),
        ("\u{20ac}\u{7f}", "%E2%82%AC%7F", None),
        ("a \u{1}#f g ", "a%20%01", Some("f%20g")),
        ("#", "", Some("")),
        (" \u{0}", "", None),
    ] {
        let u = url(&format!("wss://h:1/word?{rest}"));
        assert_eq!(u.query.as_deref(), Some(query));
        assert_eq!(u.fragment.as_deref(), fragment);
    }
}

#[test]
fn resolved_url_resolves_to_itself() {
    let config = config();
    let ready = SharedConfig::Ready(&config);
    for text in [
        "ws://h/auto_gen",
        "wss://[::1]:9/auto_gen?x=1#f",
        "ws://h/p?a=%26+b&terminal_id=x&c#f",
        "wss://h:1/",
    ] {
        for id in ["t", "x&y=z#w", ""] {
            let once = parse_url(url(text), 1, "a&b", id, &ready).unwrap();
            for shared in [SharedConfig::Uninitialized, SharedConfig::Ready(&config)] {
                let again = parse_url(once.clone(), 2, "other", id, &shared).unwrap();
                assert_eq!(again.text(), once.text());
                assert_eq!(again.host, once.host);
                assert_eq!(again.port, once.port);
            }
        }
    }
}

#[test]
fn agent_and_task_come_first_whatever_the_token() {
    let config = config();
    let ready = SharedConfig::Ready(&config);
    for token in ["a&b=c", "+", "%41", "#", "\t", "&agent_uuid=x&task_id=y", "a#b&terminal_id=z"] {
        for id in ["i", "x&y", "#"] {
            let target = parse_url(url("ws://h/auto_gen"), 9, token, id, &ready).unwrap();
            let pairs = read(&target);
            assert_eq!(
                pairs[..2],
                [
                    pair("agent_uuid", "67e55044-10b1-426f-9247-bb680e5fe0c8"),
                    pair("task_id", "9"),
                ]
            );
            assert_eq!(pairs.last(), Some(&pair("terminal_id", id)));
            assert_eq!(
                target.fragment.is_some(),
                token.contains('#') || id.contains('#')
            );
        }
    }
}

#[test]
fn socket_urls_have_host_and_port() {
    for text in ["ws://h", "WSS:\\\\H?x", "ws:h:1", "wss://1.2/", "ws://[::1]", "ws://\u{e9}"] {
        let u = url(text);
        assert!(u.host.is_some());
        assert!(u.port.is_some());
    }
    assert_eq!(url("wss://1.2/").host.as_deref(), Some("1.0.0.2"));
    assert_eq!(url("ws://\u{c9}A").host.as_deref(), Some("xn--a-9fa"));
}

#[test]
fn hosts_of_other_characters_are_generated_on() {
    let config = config();
    let ready = SharedConfig::Ready(&config);
    for host in [
        "b\u{fc}cher.example",
        "B\u{dc}CHER\u{3002}\u{4f8b}\u{3048}.1a",
        "\u{5d0}\u{5d1}.A.example",
        "fa\u{df}.\u{ff21}\u{ff22}",
        "\u{e9}\u{301}x",
    ] {
        let from = url(&format!("wss://{host}/auto_gen"));
        let target = parse_url(from.clone(), 1, "t", "i", &ready).unwrap();
        assert_eq!(target.host, from.host);
        assert_eq!(target.port, from.port);
    }
}
