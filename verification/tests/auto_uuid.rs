use nodeget_agent::auto_uuid::{place_uuid, replace_auto_gen};

const ID: &str = "67e55044-10b1-426f-9247-bb680e5fe0c8";

fn rewrite(content: &str) -> String {
    replace_auto_gen(content, ID)
}

#[test]
fn placeholder_lines_get_the_uuid() {
    for (line, expected) in [
        ("agent_uuid = \"auto_gen\"", "agent_uuid = \"67e55044-10b1-426f-9247-bb680e5fe0c8\"\n"),
        ("agent_uuid='auto_gen'", "agent_uuid= '67e55044-10b1-426f-9247-bb680e5fe0c8'\n"),
        ("  AGENT_uuid\t=\t \"AUTO_gen\" # x", "  AGENT_uuid\t= \"67e55044-10b1-426f-9247-bb680e5fe0c8\" # x\n"),
        ("agent_uuid=\"auto_generated\"", "agent_uuid= \"67e55044-10b1-426f-9247-bb680e5fe0c8erated\"\n"),
        ("\u{3000}agent_uuid =\u{a0}\"auto_gen\u{20ac}", "\u{3000}agent_uuid = \"67e55044-10b1-426f-9247-bb680e5fe0c8\u{20ac}\n"),
    ] {
        assert_eq!(rewrite(line), expected);
    }
}

#[test]
fn other_lines_stay() {
    for line in [
        "# agent_uuid = \"auto_gen\"",
        "agent_uuids = \"auto_gen\"",
        "agent_uui = \"auto_gen\"",
        "\"agent_uuid\" = \"auto_gen\"",
        "agent_uuid = auto_gen",
        "agent_uuid \"auto_gen\"",
        "agent_uuid =",
        "agent_uuid = \"auto_ge\"",
        "agent_uuid = \"auto-gen\"",
        "agent_uuid = \"",
        "agent_uuid = \" auto_gen\"",
        "agent_uuid\u{b}= \"auto_gen\"",
        "x = 1",
        "   ",
        "",
    ] {
        let content = format!("{line}\nlast");
        assert_eq!(rewrite(&content), format!("{line}\nlast\n"));
    }
}

#[test]
fn lines_end_in_a_line_feed() {
    assert_eq!(rewrite(""), "");
    assert_eq!(rewrite("a"), "a\n");
    assert_eq!(rewrite("a\n"), "a\n");
    assert_eq!(rewrite("a\r\nb\r\n\r\n"), "a\nb\n\n");
    assert_eq!(rewrite("a\r\r\nb\r"), "a\r\nb\r\n");
    assert_eq!(rewrite("\n\nx"), "\n\nx\n");
    assert_eq!(
        rewrite("agent_uuid = \"auto_gen\"\r\n"),
        "agent_uuid = \"67e55044-10b1-426f-9247-bb680e5fe0c8\"\n"
    );
}

#[test]
fn rewriting_twice_changes_nothing_more() {
    let content = "a = 1\nagent_uuid = 'auto_gen'\n\n[s]\nagent_uuid=\"auto_gen\"\n";
    let once = rewrite(content);
    assert_eq!(replace_auto_gen(&once, "other"), once);
}

#[test]
fn values_of_other_characters_stay() {
    for line in [
        "agent_uuid = \"auto_ge\u{20ac}\"",
        "Agent_Uuid='1234567\u{e9}'",
        "agent_uuid = \"\u{4e2d}\u{4e2d}\u{4e2d}\"",
    ] {
        assert_eq!(rewrite(line), format!("{line}\n"));
    }
}

#[test]
fn uuid_is_placed_by_line_or_by_value() {
    let content = "agent_uuid = 'auto_gen'\r\n";
    let around = Some(("agent_uuid = ".to_owned(), "\r\n".to_owned()));
    assert_eq!(
        place_uuid(content, ID, &Ok(Some(ID.to_owned())), &around),
        Some(format!("agent_uuid = '{ID}'\n"))
    );
    for read in [
        Ok(None),
        Ok(Some("auto_gen".to_owned())),
        Err("broken".to_owned()),
    ] {
        assert_eq!(
            place_uuid(content, ID, &read, &around),
            Some(format!("agent_uuid = \"{ID}\"\r\n"))
        );
        assert_eq!(place_uuid(content, ID, &read, &None), None);
    }
}
