use imap_stream::entry::passes_for_entry_name;

#[test]
fn entry_names_pass() {
    let names: [&[u8]; 13] = [
        b"/private/comment",
        b"/shared/comment",
        b"/shared/admin",
        b"/shared/admin/a",
        b"/shared/comment/",
        b"/shared/comment/a b//c",
        b"/shared/vendor/x",
        b"/private/vendor/x/y",
        b"/shared/comment *",
        b"/shared/comment\r*",
        b"/shared/comment/a\r*",
        b"/shared/vendor/ ",
        b"/private/comment \xff",
    ];
    for name in names {
        assert!(passes_for_entry_name(name));
    }
}

#[test]
fn other_names_do_not_pass() {
    let names: [&[u8]; 15] = [
        b"",
        b"/",
        b"/private",
        b"/shared",
        b"/private/admin",
        b"/Shared/comment",
        b"/shared/commenta",
        b"/shared/comment/*",
        b"/shared/comment/a%b",
        b"/shared/comment/a\n",
        b"/shared/comment/\x80",
        b"/shared/vendor",
        b"/shared/vendor/",
        b"/shared/vendor//x",
        b"/shared/comment\xff",
    ];
    for name in names {
        assert!(!passes_for_entry_name(name));
    }
}
