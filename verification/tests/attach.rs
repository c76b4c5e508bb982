use goose_mobile::attach::{
    accept, adopt_sent, base64_len_to_bytes, code_parts, conversation_key, data_url_base64,
    describe_refusal, display_name, from_content_block, from_part, goose_blocks, kind_of,
    picker_js, reading_for, receipt_toast, receive, refusal, refusal_summary, restore_thumbnails, restored_note,
    return_to_tray, sent_attachments, thumbnail_index, track, tray_of, trays_fit, AttachKind, AttachTarget,
    Attachment, ContentBlock, EmbeddedResource, FilePart, PendingAttachment, Pick, Picked,
    PickedFile, PickedRejection, PromptPart, Receipt, Refusal, Tray, Trays, MAX_ATTACHMENTS,
    MAX_FILE_BYTES, MAX_TOTAL_BYTES, THUMB_MAX_CHARS,
};

fn pending(name: &str, mime: &str, size: u64) -> PendingAttachment {
    PendingAttachment {
        record: Attachment { name: name.to_owned(), mime: mime.to_owned(), size, thumb: "THUMB".to_owned() },
        data: "QUJD".to_owned(),
        text: Some("hello".to_owned()),
    }
}

fn rejection(name: &str, reason: &str, bytes: u64, mime: &str) -> PickedRejection {
    PickedRejection { name: name.to_owned(), reason: reason.to_owned(), bytes, mime: mime.to_owned() }
}

fn words(r: &Refusal) -> String {
    describe_refusal(r, "")
}

fn image_block(data: String, mime: &str) -> ContentBlock {
    ContentBlock::Image { data, mime_type: mime.to_owned(), uri: None }
}

fn resource_text(uri: &str, mime: &str, text: &str) -> ContentBlock {
    ContentBlock::Resource {
        resource: EmbeddedResource {
            uri: Some(uri.to_owned()),
            mime_type: Some(mime.to_owned()),
            text: Some(text.to_owned()),
            blob: None,
        },
    }
}

fn no_trays() -> Trays {
    Trays { goose: Vec::new(), code: Vec::new(), new_chat: Vec::new() }
}

#[test]
fn the_picker_script_carries_no_unfilled_placeholders() {
    let js = picker_js();
    assert!(!js.replace("__attachWired", "").contains("__"), "a __TOKEN__ in PICK_FILES was not substituted");
    assert!(js.contains(&MAX_FILE_BYTES.to_string()));
}

#[test]
fn the_picker_script_enforces_every_cap_and_not_just_the_per_file_one() {
    let js = picker_js();
    for (name, value) in [("MAX_FILES", MAX_ATTACHMENTS.to_string()), ("MAX_TOTAL", MAX_TOTAL_BYTES.to_string())] {
        assert!(js.contains(&format!("{name} = {value}")), "{name} never reaches the browser");
        assert!(js.matches(name).count() > 1, "{name} is declared and never used");
    }
    assert!(js.contains("const EDGE = 1280;"));
    assert!(js.contains("const RETRY_EDGE = 800;"));
    assert!(js.contains("const THUMB_EDGE = 192;"));
}

#[test]
fn a_cap_refused_in_the_browser_reads_like_one_refused_by_the_tray() {
    let browser = |reason: &str| refusal(&rejection("notes.md", reason, 0, ""));
    let mut full: Vec<PendingAttachment> =
        (0..MAX_ATTACHMENTS).map(|i| pending(&format!("f{i}.txt"), "text/plain", 10)).collect();
    let tray = accept(&mut full, vec![pending("notes.md", "text/plain", 10)]);
    assert_eq!(tray, [browser("too-many")]);
    assert_eq!(words(&tray[0]), words(&browser("too-many")));

    let mut heavy = vec![pending("big.pdf", "application/pdf", MAX_TOTAL_BYTES - 10)];
    let tray = accept(&mut heavy, vec![pending("notes.md", "text/plain", 100)]);
    assert_eq!(tray, [browser("too-heavy")]);
    assert_eq!(words(&tray[0]), words(&browser("too-heavy")));

    assert!(!words(&browser("too-many")).contains("too-many"), "the reason name leaked into the toast");
}

#[test]
fn one_pick_finishing_does_not_cancel_another_that_is_still_reading() {
    let mut picks: Vec<Pick> = Vec::new();
    track(&mut picks, 1, AttachTarget::Code, "chat-1", Some(5));
    track(&mut picks, 2, AttachTarget::Goose, "sess-1", Some(1));
    assert_eq!(reading_for(&picks, AttachTarget::Goose, "sess-1"), 1);
    track(&mut picks, 1, AttachTarget::Code, "chat-1", None);
    assert_eq!(reading_for(&picks, AttachTarget::Code, "chat-1"), 0);
    assert_eq!(reading_for(&picks, AttachTarget::Goose, "sess-1"), 1, "the other composer went quiet for the rest of its read");
}

#[test]
fn a_read_is_only_announced_in_the_conversation_it_was_started_in() {
    let mut picks: Vec<Pick> = Vec::new();
    track(&mut picks, 1, AttachTarget::Goose, "sess-a", Some(3));
    assert_eq!(reading_for(&picks, AttachTarget::Goose, "sess-b"), 0);
    assert_eq!(reading_for(&picks, AttachTarget::Code, "sess-a"), 0);
    track(&mut picks, 2, AttachTarget::Goose, "sess-a", Some(2));
    assert_eq!(reading_for(&picks, AttachTarget::Goose, "sess-a"), 5);
    track(&mut picks, 3, AttachTarget::Goose, "sess-a", Some(0));
    assert_eq!(picks.len(), 2);
}

#[test]
fn a_picked_payload_decodes_the_way_the_script_writes_it() {
    let raw = r##"{"pick":7,"target":"code","conversation":"chat-1",
        "files":[
          {"name":"IMG_0042.jpg","mime":"image/jpeg","data":"QUJDRA==","thumb":"QUJD","text":null},
          {"name":"notes.md","mime":"text/markdown","data":"QUJD","thumb":"","text":"# notes"}],
        "rejected":[
          {"name":"clip.mov","reason":"unsupported","mime":"video/quicktime"},
          {"name":"huge.pdf","reason":"too-big","bytes":5000009}]}"##;
    let v: serde_json::Value = serde_json::from_str(raw).unwrap();
    let text = |x: &serde_json::Value, k: &str| x.get(k).and_then(|s| s.as_str()).unwrap_or_default().to_owned();
    let msg = Picked {
        pick: v["pick"].as_u64().unwrap(),
        target: text(&v, "target"),
        conversation: text(&v, "conversation"),
        reading: v.get("reading").and_then(|r| r.as_u64()).map(|r| r as usize),
        files: v["files"]
            .as_array()
            .unwrap()
            .iter()
            .map(|f| PickedFile {
                name: text(f, "name"),
                mime: text(f, "mime"),
                data: text(f, "data"),
                thumb: text(f, "thumb"),
                text: f.get("text").and_then(|t| t.as_str()).map(str::to_owned),
            })
            .collect(),
        rejected: v["rejected"]
            .as_array()
            .unwrap()
            .iter()
            .map(|r| PickedRejection {
                name: text(r, "name"),
                reason: text(r, "reason"),
                bytes: r.get("bytes").and_then(|b| b.as_u64()).unwrap_or_default(),
                mime: text(r, "mime"),
            })
            .collect(),
    };
    assert_eq!(msg.target, "code");
    assert_eq!(msg.reading, None);
    assert_eq!(msg.pick, 7);
    assert_eq!(msg.conversation, "chat-1");

    let refused: Vec<Refusal> = msg.rejected.iter().map(refusal).collect();
    let picked: Vec<PendingAttachment> = msg.files.into_iter().map(PendingAttachment::from).collect();
    assert_eq!(picked[0].record.size, 4, "size comes from the payload");
    assert_eq!(picked[0].record.thumb, "QUJD");
    assert_eq!(picked[1].text.as_deref(), Some("# notes"));
    assert!(words(&refused[0]).contains("video/quicktime"), "got: {}", words(&refused[0]));
    assert_eq!(refused[1], Refusal::TooBig { name: "huge.pdf".to_owned(), bytes: 5_000_009 });
    assert!(describe_refusal(&refused[1], "5.0 MB").contains("5.0 MB"));
}

#[test]
fn base64_length_gives_the_byte_count_back() {
    assert_eq!(base64_len_to_bytes("QUJD"), 3);
    assert_eq!(base64_len_to_bytes("QUJDRA=="), 4);
    assert_eq!(base64_len_to_bytes(""), 0);
    assert_eq!(base64_len_to_bytes("QUJDRA="), 4);
    assert_eq!(base64_len_to_bytes("===="), 0);
    assert_eq!(base64_len_to_bytes("éé"), 3, "a length is counted in bytes");
}

#[test]
fn the_tray_fills_up_and_says_what_it_turned_away() {
    let mut tray = Vec::new();
    let picked: Vec<PendingAttachment> =
        (0..MAX_ATTACHMENTS + 2).map(|i| pending(&format!("f{i}.txt"), "text/plain", 10)).collect();
    let refused = accept(&mut tray, picked);
    assert_eq!(tray.len(), MAX_ATTACHMENTS);
    assert_eq!(refused.len(), 2);
    assert!(words(&refused[0]).starts_with("f6.txt —"), "got: {}", words(&refused[0]));
}

#[test]
fn a_message_that_would_be_too_heavy_altogether_is_refused_by_name() {
    let mut tray = vec![pending("big.pdf", "application/pdf", MAX_TOTAL_BYTES - 10)];
    let refused = accept(&mut tray, vec![pending("more.pdf", "application/pdf", 100)]);
    assert_eq!(tray.len(), 1, "the second file must not be taken");
    let said: Vec<String> = refused.iter().map(words).collect();
    assert_eq!(said, ["more.pdf — one message carries at most 8.0 MB in total"]);
}

#[test]
fn a_file_over_its_own_cap_is_refused_with_its_weight() {
    let mut tray = Vec::new();
    let refused = accept(&mut tray, vec![pending("huge.mov", "video/quicktime", MAX_FILE_BYTES + 1), pending("ok.txt", "text/plain", 5)]);
    assert_eq!(refused, [Refusal::TooBig { name: "huge.mov".to_owned(), bytes: MAX_FILE_BYTES + 1 }]);
    assert_eq!(tray.len(), 1);
    assert_eq!(tray[0].record.name, "ok.txt");
}

#[test]
fn every_refusal_reason_becomes_something_a_person_can_act_on() {
    let reject = |reason: &str, bytes: u64, mime: &str| refusal(&rejection("clip.mov", reason, bytes, mime));
    assert_eq!(describe_refusal(&reject("too-big", 9_000_000, ""), "9.0 MB"), "clip.mov is 9.0 MB — the limit is 4.0 MB a file");
    assert_eq!(
        words(&reject("unsupported", 0, "video/quicktime")),
        "clip.mov is video/quicktime — only images, text files and PDFs can be attached"
    );
    assert_eq!(words(&reject("unreadable", 0, "")), "clip.mov could not be read");
    assert!(words(&reject("unsupported", 0, "")).contains("an unrecognised type"));
    assert_eq!(words(&reject("lost-in-transit", 0, "")), "clip.mov — lost-in-transit");
    assert_eq!(words(&reject("too-many", 0, "")), "clip.mov — one message carries at most 6 attachments");
}

#[test]
fn one_toast_names_the_first_failure_and_counts_the_rest() {
    assert_eq!(refusal_summary(&Vec::new()), None);
    assert_eq!(refusal_summary(&vec!["a is big".to_owned()]).as_deref(), Some("Not attached: a is big"));
    assert_eq!(
        refusal_summary(&vec!["a is big".to_owned(), "b too".to_owned(), "c".to_owned()]).as_deref(),
        Some("Not attached: a is big (and 2 more)")
    );
}

#[test]
fn each_kind_is_encoded_the_way_its_backend_takes_it() {
    let files = vec![
        pending("shot.jpg", "image/jpeg", 100),
        pending("notes.md", "text/markdown", 20),
        pending("spec.pdf", "application/pdf", 30),
    ];
    assert_eq!(
        goose_blocks("look", &files),
        vec![
            ContentBlock::Text { text: "look".to_owned() },
            ContentBlock::Image { data: "QUJD".to_owned(), mime_type: "image/jpeg".to_owned(), uri: None },
            resource_text("attachment:notes.md", "text/markdown", "hello"),
            ContentBlock::Resource {
                resource: EmbeddedResource {
                    uri: Some("attachment:spec.pdf".to_owned()),
                    mime_type: Some("application/pdf".to_owned()),
                    text: None,
                    blob: Some("QUJD".to_owned()),
                },
            },
        ]
    );
    let file = |mime: &str, name: &str, url: &str| PromptPart::File {
        mime: mime.to_owned(),
        filename: name.to_owned(),
        url: url.to_owned(),
    };
    assert_eq!(
        code_parts("look", &files),
        vec![
            PromptPart::Text { text: "look".to_owned() },
            file("image/jpeg", "shot.jpg", "data:image/jpeg;base64,QUJD"),
            file("text/plain", "notes.md", "data:text/plain;base64,QUJD"),
            file("application/pdf", "spec.pdf", "data:application/pdf;base64,QUJD"),
        ]
    );
}

#[test]
fn attachments_alone_send_no_empty_text_block() {
    let files = vec![pending("shot.jpg", "image/jpeg", 100)];
    assert_eq!(goose_blocks("", &files).len(), 1);
    assert_eq!(code_parts("", &files).len(), 1);
}

#[test]
fn a_replayed_payload_is_only_kept_when_it_is_thumbnail_sized() {
    let small = image_block("Q".repeat(100), "image/jpeg");
    assert_eq!(from_content_block(&small).thumb.len(), 100);
    let big = image_block("Q".repeat(THUMB_MAX_CHARS + 1), "image/jpeg");
    let record = from_content_block(&big);
    assert!(record.thumb.is_empty(), "a full-size image is not a thumb");
    assert!(record.size > 0, "but it still reports what it weighs");
}

#[test]
fn a_replayed_resource_keeps_its_name_and_type() {
    let record = from_content_block(&resource_text("attachment:notes.md", "text/markdown", "hello"));
    assert_eq!(record.name, "notes.md");
    assert_eq!(record.mime, "text/markdown");
    assert_eq!(record.size, 5);
    assert_eq!(display_name("data:image/png;base64,QQ=="), "Attachment");
    assert_eq!(display_name("file:///a/b/c.png"), "c.png");
}

#[test]
fn every_replayed_block_says_what_it_can() {
    let audio = from_content_block(&ContentBlock::Audio { data: "QUJD".to_owned(), mime_type: "audio/wav".to_owned() });
    assert_eq!((audio.name.as_str(), audio.mime.as_str(), audio.size), ("Audio", "audio/wav", 3));
    let link = from_content_block(&ContentBlock::ResourceLink { uri: "file:///x/y.txt".to_owned(), name: None });
    assert_eq!((link.name.as_str(), link.size), ("file:///x/y.txt", 0));
    let named = from_content_block(&ContentBlock::ResourceLink { uri: "u".to_owned(), name: Some("Y".to_owned()) });
    assert_eq!(named.name, "Y");
    let blob = from_content_block(&ContentBlock::Resource {
        resource: EmbeddedResource { uri: None, mime_type: None, text: None, blob: Some("QUJDRA==".to_owned()) },
    });
    assert_eq!((blob.name.as_str(), blob.mime.as_str(), blob.size), ("Attachment", "", 4));
    let text = from_content_block(&ContentBlock::Text { text: "hi".to_owned() });
    assert_eq!(text, Attachment { name: String::new(), mime: String::new(), size: 0, thumb: String::new() });
    let named_image = from_content_block(&ContentBlock::Image { data: "QQ==".to_owned(), mime_type: "image/png".to_owned(), uri: Some("a.png".to_owned()) });
    assert_eq!((named_image.name.as_str(), named_image.size, named_image.thumb.as_str()), ("a.png", 1, "QQ=="));
}

#[test]
fn a_name_is_the_last_segment_of_where_it_came_from() {
    assert_eq!(display_name(""), "Attachment");
    assert_eq!(display_name("attachment:notes.md"), "notes.md");
    assert_eq!(display_name("https://host/dir/"), "dir");
    assert_eq!(display_name("///"), "///");
    assert_eq!(display_name("plain"), "plain");
}

#[test]
fn an_opencode_file_part_becomes_an_attachment() {
    let part = FilePart {
        mime: Some("image/jpeg".to_owned()),
        filename: Some("IMG_0042.jpg".to_owned()),
        url: Some("data:image/jpeg;base64,QUJD".to_owned()),
    };
    let record = from_part(&part);
    assert_eq!(record.name, "IMG_0042.jpg");
    assert_eq!(record.size, 3);
    assert_eq!(record.thumb, "QUJD");
}

#[test]
fn a_file_part_without_a_name_is_named_by_its_url_and_a_text_part_keeps_no_thumb() {
    let part = FilePart {
        mime: Some("text/plain".to_owned()),
        filename: Some(String::new()),
        url: Some("data:text/plain;base64,QUJD".to_owned()),
    };
    let record = from_part(&part);
    assert_eq!(record.name, "Attachment");
    assert_eq!(record.size, 3);
    assert_eq!(record.thumb, "");
    assert_eq!(data_url_base64("data:text/plain;base64,QUJD").as_deref(), Some("QUJD"));
    assert_eq!(data_url_base64("data:text/plain,QUJD"), None);
    assert_eq!(data_url_base64("https://x/y;base64,QUJD"), None);
    assert_eq!(data_url_base64("data:a;base64,b,c").as_deref(), Some("b,c"));
}

#[test]
fn thumbnails_survive_a_history_reload_without_being_swapped() {
    let attachment = |size: u64, thumb: &str| Attachment {
        name: "image.jpg".to_owned(),
        mime: "image/jpeg".to_owned(),
        size,
        thumb: thumb.to_owned(),
    };
    let before = vec![vec![attachment(100, "FIRST"), attachment(200, "SECOND")]];
    let index = thumbnail_index(&before);
    let mut after = vec![vec![attachment(200, ""), attachment(100, "")]];
    restore_thumbnails(&index, &mut after);
    assert_eq!(after[0][0].thumb, "SECOND");
    assert_eq!(after[0][1].thumb, "FIRST");
}

#[test]
fn a_later_thumbnail_for_the_same_file_wins_and_a_present_one_stays() {
    let a = |thumb: &str| Attachment { name: "image.jpg".to_owned(), mime: "image/jpeg".to_owned(), size: 7, thumb: thumb.to_owned() };
    let index = thumbnail_index(&vec![vec![a("OLD")], vec![], vec![a("NEW")]]);
    let mut after = vec![vec![a(""), a("MINE")]];
    restore_thumbnails(&index, &mut after);
    assert_eq!(after[0][0].thumb, "NEW");
    assert_eq!(after[0][1].thumb, "MINE");
}

#[test]
fn a_replayed_photo_takes_back_the_name_and_picture_it_was_sent_with() {
    let photo = |name: &str, thumb: &str| Attachment {
        name: name.to_owned(),
        mime: "image/jpeg".to_owned(),
        size: 18_003,
        thumb: thumb.to_owned(),
    };
    let before = vec![vec![
        photo("IMG_0042.jpg", "FIRST"),
        photo("IMG_0043.jpg", "SECOND"),
        Attachment { name: "spec.pdf".to_owned(), mime: "application/pdf".to_owned(), size: 18_003, thumb: String::new() },
    ]];
    let mut sent = sent_attachments(&before);
    assert_eq!(sent.len(), 2, "a resource replays with its uri, so it needs no help");

    let block = image_block("Q".repeat(THUMB_MAX_CHARS + 4), "image/jpeg");
    let mut first = from_content_block(&block);
    assert_eq!(first.name, "Image", "which is all the replay itself knows");
    assert!(first.thumb.is_empty());
    adopt_sent(&mut sent, &mut first);
    assert_eq!(first.name, "IMG_0042.jpg");
    assert_eq!(first.thumb, "FIRST");

    let mut second = from_content_block(&block);
    adopt_sent(&mut sent, &mut second);
    assert_eq!(second.thumb, "SECOND", "a match is consumed, so the second photo is not given the first's");

    let mut third = from_content_block(&block);
    adopt_sent(&mut sent, &mut third);
    assert_eq!(third.name, "Image", "nothing is left to match");
}

#[test]
fn a_failed_send_says_what_became_of_its_attachments() {
    assert_eq!(restored_note(0, 0), "", "a message with no files says less");
    assert_eq!(restored_note(2, 2), " — its attachments are back in the composer");
    assert_eq!(restored_note(1, 3), " — 1 of 3 attachments are back in the composer");
    assert!(restored_note(0, 2).contains("not put back"), "a full tray keeps what the reader picked since, and says so");
}

#[test]
fn a_failed_send_goes_back_only_to_the_chat_it_left() {
    let mut trays = no_trays();
    let note = return_to_tray(&mut trays, AttachTarget::Code, "chat-2", "chat-1", vec![pending("a.txt", "text/plain", 1)]);
    assert_eq!(note, " — that chat is no longer open, so its attachments were not put back");
    assert!(trays.code.is_empty());

    let note = return_to_tray(&mut trays, AttachTarget::Code, "chat-1", "chat-1", vec![pending("a.txt", "text/plain", 1), pending("b.txt", "text/plain", 1)]);
    assert_eq!(note, " — its attachments are back in the composer");
    assert_eq!(trays.code.len(), 2);

    trays.goose = (0..MAX_ATTACHMENTS - 1).map(|i| pending(&format!("g{i}"), "text/plain", 1)).collect();
    let note = return_to_tray(&mut trays, AttachTarget::Goose, "s", "s", vec![pending("x", "text/plain", 1), pending("y", "text/plain", 1)]);
    assert_eq!(note, " — 1 of 2 attachments are back in the composer");
    assert_eq!(return_to_tray(&mut trays, AttachTarget::Goose, "s", "s", Vec::new()), "");
}

#[test]
fn a_pick_lands_in_the_tray_of_the_conversation_it_was_made_in() {
    let mut picks: Vec<Pick> = Vec::new();
    let mut trays = no_trays();
    let file = |name: &str| PickedFile {
        name: name.to_owned(),
        mime: "image/jpeg".to_owned(),
        data: "QUJD".to_owned(),
        thumb: "T".to_owned(),
        text: None,
    };
    let msg = |target: &str, conversation: &str, reading: Option<usize>, files: Vec<PickedFile>| Picked {
        pick: 9,
        target: target.to_owned(),
        conversation: conversation.to_owned(),
        reading,
        files,
        rejected: vec![rejection("clip.mov", "unsupported", 0, "video/quicktime")],
    };
    assert_eq!(receive(&mut picks, &mut trays, "s", "c", msg("carrier", "c", None, vec![file("a")])), Receipt::UnknownComposer);
    assert_eq!(receive(&mut picks, &mut trays, "s", "c", msg("code", "c", Some(1), Vec::new())), Receipt::Reading);
    assert_eq!(reading_for(&picks, AttachTarget::Code, "c"), 1);
    assert_eq!(
        receive(&mut picks, &mut trays, "s", "c2", msg("code", "c", None, vec![file("a")])),
        Receipt::ChatClosed { had_files: true }
    );
    assert!(picks.is_empty(), "the result still ends its read");
    assert!(trays.code.is_empty());
    let got = receive(&mut picks, &mut trays, "s", "new", msg("code", "new", None, vec![file("a"), file("b")]));
    assert_eq!(
        got,
        Receipt::Landed { refused: vec![Refusal::Unsupported { name: "clip.mov".to_owned(), mime: "video/quicktime".to_owned() }] }
    );
    assert_eq!(trays.new_chat.len(), 2, "the new-session screen keeps a tray of its own");
    assert!(trays.code.is_empty());
    assert_eq!(trays.new_chat[0].record.size, 3);
}

#[test]
fn a_composer_knows_which_conversation_it_is_in() {
    assert_eq!(conversation_key(AttachTarget::Goose, Some("sess"), true, Some("chat")), "sess");
    assert_eq!(conversation_key(AttachTarget::Goose, None, false, None), "");
    assert_eq!(conversation_key(AttachTarget::Code, Some("sess"), true, Some("chat")), "new");
    assert_eq!(conversation_key(AttachTarget::Code, None, false, Some("chat")), "chat");
    assert_eq!(tray_of(AttachTarget::Code, "new"), Tray::NewChat);
    assert_eq!(tray_of(AttachTarget::Code, "chat"), Tray::Code);
    assert_eq!(tray_of(AttachTarget::Goose, "new"), Tray::Goose);
    assert_eq!(AttachTarget::parse("goose"), Some(AttachTarget::Goose));
    assert_eq!(AttachTarget::parse(AttachTarget::Code.as_str()), Some(AttachTarget::Code));
    assert_eq!(AttachTarget::parse("Goose"), None);
}

#[test]
fn a_mime_type_names_its_kind() {
    assert_eq!(kind_of("image/png"), AttachKind::Image);
    assert_eq!(kind_of("text/markdown"), AttachKind::Text);
    assert_eq!(kind_of("application/json"), AttachKind::Text);
    assert_eq!(kind_of("application/xml"), AttachKind::Text);
    assert_eq!(kind_of("application/pdf"), AttachKind::Binary);
    assert_eq!(kind_of("image"), AttachKind::Binary);
}

#[test]
fn trays_that_a_u64_can_weigh_are_fit_to_take_more() {
    let mut trays = no_trays();
    assert!(trays_fit(&trays));
    trays.code = vec![pending("a", "text/plain", u64::MAX), pending("b", "text/plain", 0)];
    assert!(trays_fit(&trays));
    trays.code.push(pending("c", "text/plain", 1));
    assert!(!trays_fit(&trays));
}

#[test]
fn a_receipt_says_what_was_lost_or_refused() {
    assert_eq!(
        receipt_toast(&Receipt::ChatClosed { had_files: true }, &Vec::new()).as_deref(),
        Some("Not attached: the chat they were picked in is closed")
    );
    assert_eq!(receipt_toast(&Receipt::ChatClosed { had_files: false }, &Vec::new()), None);
    assert_eq!(receipt_toast(&Receipt::Reading, &Vec::new()), None);
    assert_eq!(receipt_toast(&Receipt::Landed { refused: Vec::new() }, &Vec::new()), None);
    let words = vec!["a.png — too big".to_string()];
    assert!(receipt_toast(&Receipt::Landed { refused: Vec::new() }, &words)
        .unwrap()
        .starts_with("Not attached: a.png — too big"));
}
