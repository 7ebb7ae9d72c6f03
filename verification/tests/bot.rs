use rust_remover::cleverbot::{Cleverbot, CleverbotSession};
use rust_remover::colour::{random_color, Colour};
use rust_remover::commands::{
    add_reminder, new_cb_session, purge_count, purge_messages, think_reply, CommandCounts, MessageInfo, PurgeAction,
};
use rust_remover::giphy::{GifResultType, GiphyConnector, GiphyError, GiphyMeta, GiphyObject};
use rust_remover::duration::Duration;
use rust_remover::guild::{
    count_presences, guild_id_from, guild_info_texts, guild_statistics, guild_statistics_text, owner_check,
    presences_fit, role_table, status_description, verification_text, AfkChannel, GuildInfo, GuildMembers,
    OnlineStatus, OwnerInfo, RoleRow, VerificationLevel,
};
use rust_remover::linear_parse::{
    JsonEmbed, JsonEmbedAuthor, JsonEmbedColor, JsonEmbedField, JsonEmbedFooter, JsonEmbedImage,
    JsonToDiscordEmbedObject,
};
use rust_remover::statics::Statics;

fn strings(v: &[&str]) -> Vec<String> {
    v.iter().map(|s| s.to_string()).collect()
}

#[test]
fn owner_is_recognised() {
    assert!(owner_check(102379663615094784));
    assert!(!owner_check(1));
}

#[test]
fn guild_id_from_argument_or_message() {
    assert_eq!(guild_id_from(&strings(&["123"]), None), Ok(123));
    assert_eq!(guild_id_from(&strings(&["123", "x"]), Some(7)), Ok(123));
    assert_eq!(guild_id_from(&strings(&[]), Some(7)), Ok(7));
    assert_eq!(guild_id_from(&strings(&[]), None), Err(String::from("Not an Guild")));
    assert_eq!(
        guild_id_from(&strings(&["abc"]), Some(7)),
        Err(String::from("Unable to parse GuildId: ParseIntError { kind: InvalidDigit }"))
    );
    assert_eq!(
        guild_id_from(&strings(&[""]), Some(7)),
        Err(String::from("Unable to parse GuildId: ParseIntError { kind: Empty }"))
    );
}

#[test]
fn verification_texts() {
    assert_eq!(verification_text(VerificationLevel::Unrestricted), "Does not require any verification.");
    assert_eq!(
        verification_text(VerificationLevel::Higher),
        "Must have a verified phone on the user's Discord account."
    );
}

#[test]
fn presences_are_counted() {
    let s = vec![
        OnlineStatus::Online,
        OnlineStatus::Idle,
        OnlineStatus::Offline,
        OnlineStatus::Online,
        OnlineStatus::DoNotDisturb,
        OnlineStatus::Invisible,
    ];
    assert_eq!(count_presences(&s), ([2, 1, 1], 4));
    assert_eq!(count_presences(&vec![]), ([0, 0, 0], 0));
}

#[test]
fn role_table_lists_highest_first() {
    let roles = vec![
        RoleRow { id: 1, position: 0, name: String::from("everyone") },
        RoleRow { id: 5, position: 2, name: String::from("admin") },
        RoleRow { id: 3, position: 1, name: String::from("mod") },
        RoleRow { id: 2, position: 1, name: String::from("helper") },
    ];
    let mut want = String::new();
    want.push_str(&format!("{:18} {:4} {}\n", "ID", "Pos", "Name"));
    want.push_str(&format!("{:18} {:4} {}\n", "---", "---", "---"));
    for (id, pos, name) in [(5u64, 2i64, "admin"), (3, 1, "mod"), (2, 1, "helper"), (1, 0, "everyone")] {
        want.push_str(&format!("{:18} {:4} {}\n", id, pos, name));
    }
    assert_eq!(role_table(&roles), want);
    assert_eq!(
        role_table(&vec![]),
        format!("{:18} {:4} {}\n{:18} {:4} {}\n", "ID", "Pos", "Name", "---", "---", "---")
    );
}

#[test]
fn role_table_negative_position() {
    let roles = vec![RoleRow { id: 9, position: -3, name: String::from("low") }];
    let t = role_table(&roles);
    assert!(t.ends_with(&format!("{:18} {:4} {}\n", 9u64, -3i64, "low")));
}

#[test]
fn guild_statistics_counts() {
    let guilds = vec![
        GuildMembers { channels: 2, members: vec![1, 2, 3] },
        GuildMembers { channels: 1, members: vec![2, 3, 4] },
    ];
    let s = guild_statistics(&guilds).unwrap();
    assert_eq!(s.guild_count, 2);
    assert_eq!(s.channel_count, 3);
    assert_eq!(s.user_count, 6);
    assert_eq!(s.user_unique_count, 4);
    assert_eq!(s.user_duplicate_count, 1);
    let none = guild_statistics(&vec![]).unwrap();
    assert_eq!((none.guild_count, none.user_count, none.user_duplicate_count), (0, 0, 1));
}

#[test]
fn guild_statistics_one_guild_without_repeats() {
    let guilds = vec![GuildMembers { channels: 4, members: vec![7, 8, 9] }];
    let s = guild_statistics(&guilds).unwrap();
    assert_eq!((s.user_count, s.user_unique_count, s.user_duplicate_count), (3, 3, 0));
}

#[test]
fn guild_statistics_negative_duplicates_do_not_fit() {
    let guilds = vec![
        GuildMembers { channels: 1, members: vec![1] },
        GuildMembers { channels: 1, members: vec![2] },
    ];
    assert!(guild_statistics(&guilds).is_none());
}

fn msg(id: u64, author: u64, age: i64) -> MessageInfo {
    MessageInfo { id, author, age_days: age }
}

#[test]
fn purge_count_keeps_one_to_hundred() {
    assert_eq!(purge_count(0), 0);
    assert_eq!(purge_count(1), 1);
    assert_eq!(purge_count(57), 57);
    assert_eq!(purge_count(100), 100);
    assert_eq!(purge_count(101), 0);
    assert_eq!(purge_count(u64::MAX), 0);
}

#[test]
fn purge_picks_recent_messages() {
    let ms = vec![msg(1, 10, 0), msg(2, 11, 3), msg(3, 10, 12), msg(4, 10, 40), msg(5, 10, 11)];
    match purge_messages(&ms, 5, None) {
        PurgeAction::DeleteMany(ids) => assert_eq!(ids, vec![1, 2, 5]),
        other => panic!("unexpected {:?}", other),
    }
    match purge_messages(&ms, 0, None) {
        PurgeAction::DeleteOne(id) => assert_eq!(id, 1),
        other => panic!("unexpected {:?}", other),
    }
    match purge_messages(&ms, 1, Some(10)) {
        PurgeAction::DeleteMany(ids) => assert_eq!(ids, vec![1, 5]),
        other => panic!("unexpected {:?}", other),
    }
    match purge_messages(&ms, 3, Some(11)) {
        PurgeAction::DeleteOne(id) => assert_eq!(id, 2),
        other => panic!("unexpected {:?}", other),
    }
    match purge_messages(&ms, 3, Some(99)) {
        PurgeAction::Nothing => {}
        other => panic!("unexpected {:?}", other),
    }
}

#[test]
fn reminder_arguments() {
    let r = add_reminder(&strings(&["5m", "take", "out", "bins"])).unwrap();
    assert_eq!(r.duration.seconds, 300);
    assert_eq!(r.message, "take out bins");
    assert_eq!(add_reminder(&strings(&["5m"])).unwrap_err(), "To few arguments");
    assert_eq!(add_reminder(&strings(&[])).unwrap_err(), "To few arguments");
    assert_eq!(add_reminder(&strings(&["5y", "x"])).unwrap_err(), "Unkown duration unit");
    assert_eq!(add_reminder(&strings(&["q1d", "x"])).unwrap_err(), "ParseIntError { kind: InvalidDigit }");
}

#[test]
fn command_counts_report() {
    let mut c = CommandCounts::new();
    assert_eq!(c.report(), "Commands used:\n");
    c.record(String::from("ping"));
    c.record(String::from("help"));
    c.record(String::from("ping"));
    assert_eq!(c.report(), "Commands used:\n- ping: 2\n- help: 1\n");
    assert_eq!(c.count_of("ping"), 2);
    assert_eq!(c.count_of("help"), 1);
    assert_eq!(c.count_of("stats"), 0);
}

#[test]
fn think_echoes_question() {
    assert_eq!(think_reply(&strings(&["how", "are", "you?"])), "You asked the (broken) kleverbot {how are you?}");
    assert_eq!(think_reply(&strings(&[])), "You asked the (broken) kleverbot {}");
}

#[test]
fn command_counts_count_occurrences() {
    let names = ["a", "b", "a", "c", "a", "b"];
    let mut c = CommandCounts::new();
    for n in names {
        c.record(n.to_string());
    }
    assert_eq!(c.report(), "Commands used:\n- a: 3\n- b: 2\n- c: 1\n");
}

#[test]
fn cleverbot_request_and_reply() {
    let mut cb = Cleverbot::new(String::from("KEY"));
    let url = cb.request_url("hi there");
    let prefix = "https://www.cleverbot.com/getreply?";
    assert!(url.starts_with(prefix));
    let mut pairs: Vec<&str> = url[prefix.len()..].split('&').collect();
    pairs.sort();
    assert_eq!(pairs, vec!["input=hi+there", "key=KEY"]);
    assert_eq!(url, "https://www.cleverbot.com/getreply?key=KEY&input=hi+there");
    assert_eq!(cb.sesscs, "");

    let mut s = CleverbotSession::new();
    s.cs = String::from("abc");
    s.output = String::from("Hello!");
    assert_eq!(cb.take_reply(true, Some(s)), Ok(String::from("Hello!")));
    let url = cb.request_url("more");
    let mut pairs: Vec<&str> = url[prefix.len()..].split('&').collect();
    pairs.sort();
    assert_eq!(pairs, vec!["cs=abc", "input=more", "key=KEY"]);
    assert_eq!(url, "https://www.cleverbot.com/getreply?key=KEY&input=more&cs=abc");
    assert_eq!(cb.sesscs, "abc");

    assert_eq!(cb.take_reply(false, None), Err(String::from("The response did not return an 200")));
    assert_eq!(cb.take_reply(true, None), Err(String::from("JSON PARSE ERR !")));
    assert_eq!(cb.cbsession.output, "Hello!");
}

#[test]
fn new_chat_session() {
    let cb = new_cb_session().unwrap();
    assert_eq!(cb.api_key, "This Token");
    assert_eq!(cb.sesscs, "");
    assert_eq!(cb.cbsession.output, "");
}

#[test]
fn colours() {
    assert_eq!(Colour::from_rgb(1, 2, 3), Colour(0x010203));
    assert_eq!(Colour::from_rgb(255, 255, 255), Colour(0xFFFFFF));
    assert_eq!(Colour::from_i32(-1), Colour(0xFFFF_FFFF));
    assert_eq!(Colour::from_i32(0x112233), Colour(0x112233));
    for _ in 0..200 {
        let c = random_color();
        assert!(c.0 < 0x0100_0000);
        assert!((c.0 >> 16) < 255 && ((c.0 >> 8) & 0xff) < 255 && (c.0 & 0xff) < 255);
    }
}

#[test]
fn embed_from_json_values() {
    let parser = JsonToDiscordEmbedObject::new();
    let json = JsonEmbed {
        title: Some(String::from("T")),
        description: None,
        color: Some(JsonEmbedColor(0x00ff00)),
        fields: Some(vec![
            JsonEmbedField { title: Some(String::from("a")), value: Some(String::from("1")), inline: Some(false) },
            JsonEmbedField { title: None, value: Some(String::from("2")), inline: None },
        ]),
        author: Some(JsonEmbedAuthor { name: Some(String::from("me")), icon: None, url: Some(String::from("u")) }),
        image: Some(JsonEmbedImage { url: None, width: Some(3), height: Some(4) }),
        timestamp: Some(String::from("2017-01-01T00:00:00Z")),
        footer: Some(JsonEmbedFooter { url: Some(String::from("f")), text: Some(String::from("bye")) }),
    };
    let e = parser.parse(json);
    assert_eq!(e.title, Some(String::from("T")));
    assert_eq!(e.description, None);
    assert_eq!(e.colour, Some(Colour(0x00ff00)));
    assert_eq!(e.fields.len(), 2);
    assert_eq!(e.fields[0].name, Some(String::from("a")));
    assert_eq!(e.fields[0].inline, Some(false));
    assert_eq!(e.fields[1].name, None);
    assert_eq!(e.fields[1].value, Some(String::from("2")));
    let a = e.author.unwrap();
    assert_eq!((a.name, a.icon_url, a.url), (Some(String::from("me")), None, Some(String::from("u"))));
    assert_eq!(e.image, None);
    assert_eq!(e.timestamp, Some(String::from("2017-01-01T00:00:00Z")));
    let f = e.footer.unwrap();
    assert_eq!((f.icon_url, f.text), (Some(String::from("f")), Some(String::from("bye"))));

    let empty = JsonEmbed {
        title: None, description: None, color: None, fields: None, author: None,
        image: Some(JsonEmbedImage { url: Some(String::from("img")), width: None, height: None }),
        timestamp: None, footer: None,
    };
    let e = parser.parse(empty);
    assert!(e.fields.is_empty());
    assert_eq!(e.image, Some(String::from("img")));
    assert_eq!(e.colour, None);
}

#[test]
fn giphy_error_from_meta() {
    let e = GiphyError::from(GiphyMeta { msg: String::from("Not Found"), status: 404, response_id: None });
    assert_eq!(e.msg, "Not Found");
    assert_eq!(e.http_status, 404);
    let c = GiphyConnector::new(String::from("k"));
    assert_eq!(c.api_key, "k");
    let o = GiphyObject { id: String::from("x"), embed_url: String::from("y") };
    assert_eq!((o.id.as_str(), o.embed_url.as_str()), ("x", "y"));
    assert_ne!(GifResultType::First, GifResultType::Last);
}

#[test]
fn statics_from_parts() {
    let s = Statics::from_parts(None, "a", "b", "c", "d", "e");
    assert_eq!(s.TARGET, "Unable to retrive target-triple from the environment");
    assert_eq!(s.CARGO_PKG_NAME, "d");
    let s = Statics::from_parts(Some(String::from("x86_64")), "a", "b", "c", "d", "e");
    assert_eq!(s.TARGET, "x86_64");
    assert_eq!(s.CARGO_PKG_VERSION, "e");
}

#[test]
fn command_counts_continue_from_earlier_counts() {
    let mut c = CommandCounts::new();
    c.record(String::from("ping"));
    c.record(String::from("stats"));
    c.record(String::from("ping"));
    for n in ["stats", "help", "ping", "stats"] {
        c.record(n.to_string());
    }
    assert_eq!(c.count_of("ping"), 3);
    assert_eq!(c.count_of("stats"), 3);
    assert_eq!(c.count_of("help"), 1);
    assert_eq!(c.count_of("about"), 0);
}

#[test]
fn presences_fit_in_i32() {
    let s = vec![OnlineStatus::Offline, OnlineStatus::Online, OnlineStatus::Invisible];
    assert!(presences_fit(&s));
    assert!(presences_fit(&vec![]));
}

#[test]
fn guild_info_texts_of_a_guild() {
    let info = GuildInfo {
        name: String::from("Rusty"),
        owner: Some(OwnerInfo { name: String::from("heap"), discriminator: 9358, id: 42 }),
        verification: VerificationLevel::Low,
        region: String::from("eu-central"),
        channel_count: 7,
        afk_channel: Some(AfkChannel { id: 99, shown: None }),
        afk_timeout: 300,
        member_count: 12,
        statuses: vec![OnlineStatus::Online, OnlineStatus::Idle, OnlineStatus::Online, OnlineStatus::Offline],
        roles: vec![
            RoleRow { id: 1, position: 0, name: String::from("everyone") },
            RoleRow { id: 2, position: 3, name: String::from("admin") },
        ],
    };
    let t = guild_info_texts(&info);
    assert_eq!(t.title, "Statistics for Rusty");
    assert_eq!(
        t.description,
        "**Owner**: heap#9358 (42)\n**Verification**: Must have a verified email on the user's Discord account.\n**Region**: eu-central"
    );
    assert_eq!(t.channels, "**Count**: 7\n**AFK Channel**: None (ID: 99)\n**AFK Timeout**: 300s\n");
    assert_eq!(
        t.users,
        "**Total User**: 12\n**Online Users**: 3\n | -> *Online*: 2\n | -> *Idle*: 1\n | -> *DND*: 0"
    );
    let expected_roles = format!(
        "```{:18} {:4} {}\n{:18} {:4} {}\n{:>18} {:>4} {}\n{:>18} {:>4} {}\n```",
        "ID", "Pos", "Name", "---", "---", "---", 2, 3, "admin", 1, 0, "everyone"
    );
    assert_eq!(t.roles, expected_roles);

    let other = GuildInfo {
        owner: None,
        afk_channel: Some(AfkChannel { id: 5, shown: Some(String::from("<#5>")) }),
        statuses: vec![],
        roles: vec![],
        ..info
    };
    let t = guild_info_texts(&other);
    assert!(t.description.starts_with("**Owner**: ~ Unable to retrieve Owner\n"));
    assert_eq!(t.channels, "**Count**: 7\n**AFK Channel**: <#5>\n**AFK Timeout**: 300s\n");
    let none = GuildInfo { afk_channel: None, ..other };
    assert!(guild_info_texts(&none).channels.contains("**AFK Channel**: No AFK Channel\n"));
}

#[test]
fn status_texts() {
    let guilds = vec![
        GuildMembers { channels: 2, members: vec![1, 2, 3] },
        GuildMembers { channels: 1, members: vec![2, 3, 4] },
    ];
    let st = guild_statistics(&guilds).unwrap();
    assert_eq!(
        guild_statistics_text(&st),
        "*2* Guilds\n*3* Channels\n*6* Users\n | -> *4* Unique\n | -> *1* Duplicates"
    );
    assert_eq!(
        status_description("Mon, 1 Jan 2018 00:00:00 +0000", Duration { seconds: 694861 }),
        "**Started**: Mon, 1 Jan 2018 00:00:00 +0000\n**Uptime**: 1w 1d 1h 1m 1s"
    );
    let s = Statics::from_parts(Some(String::from("x86_64")), "me", "d", "h", "bot", "0.1.0");
    assert_eq!(s.info_text(), "**Target**: x86_64\n**Authors**: me\n**Project Name**: bot\n**Version**: 0.1.0");
}
