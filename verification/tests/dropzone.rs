use swine::dropzone::{
    answer_consents, blocked_paths, calculate_dir_stats, check_and_prompt, confirmation,
    contents_line, format_size, user_dirs_file, validate_dropzone, Confirmation, DirEntry,
    DropzoneError, StatsError,
};

fn b(s: &str) -> Vec<u8> {
    s.as_bytes().to_vec()
}

fn shown(size: u64) -> String {
    const KB: u64 = 1024;
    const MB: u64 = KB * 1024;
    const GB: u64 = MB * 1024;
    if size >= GB {
        format!("{:.1} GB", size as f64 / GB as f64)
    } else if size >= MB {
        format!("{:.1} MB", size as f64 / MB as f64)
    } else if size >= KB {
        format!("{:.1} KB", size as f64 / KB as f64)
    } else {
        format!("{} bytes", size)
    }
}

#[test]
fn sizes_in_words() {
    assert_eq!(format_size(0), "0 bytes");
    assert_eq!(format_size(1023), "1023 bytes");
    assert_eq!(format_size(1024), "1.0 KB");
    assert_eq!(format_size(1536), "1.5 KB");
    assert_eq!(format_size(1024 * 1024 - 1), "1024.0 KB");
    assert_eq!(format_size(4509715661), "4.2 GB");
}

#[test]
fn sizes_agree_with_floating_point() {
    let mut seeds: Vec<u64> = vec![0, 1, 1023, 1024, 1025, 1075, 1126, 1177, u64::MAX, u64::MAX - 1];
    for k in 0..64u32 {
        let p = 1u64 << k;
        seeds.push(p);
        seeds.push(p - 1);
        seeds.push(p + 1);
        seeds.push(p + p / 2);
        seeds.push(p + p / 4 + 1);
    }
    let mut x: u64 = 0x9E37_79B9_7F4A_7C15;
    for _ in 0..20000 {
        x ^= x << 13;
        x ^= x >> 7;
        x ^= x << 17;
        seeds.push(x);
        seeds.push(x >> (x % 64));
    }
    for n in 0..2048u64 {
        seeds.push((1 << 30) / 20 * n);
        seeds.push((1u64 << 53) + n);
        seeds.push(1024 * 1024 + n * 52429);
    }
    for s in seeds {
        assert_eq!(format_size(s), shown(s), "{s}");
    }
}

#[test]
fn links_count_for_nothing() {
    let tree = vec![
        DirEntry::File(10),
        DirEntry::Symlink,
        DirEntry::Directory(vec![DirEntry::File(5), DirEntry::Directory(vec![]), DirEntry::Symlink]),
    ];
    assert_eq!(calculate_dir_stats(&tree), Ok((2, 15)));
    assert_eq!(calculate_dir_stats(&vec![]), Ok((0, 0)));
}

#[test]
fn too_much_is_not_counted() {
    assert_eq!(
        calculate_dir_stats(&vec![DirEntry::File(u64::MAX), DirEntry::File(1)]),
        Err(StatsError::TooMuch)
    );
    assert_eq!(calculate_dir_stats(&vec![DirEntry::File(u64::MAX)]), Ok((1, u64::MAX)));
}

#[test]
fn order_of_entries_is_immaterial() {
    let one = vec![DirEntry::File(1), DirEntry::Directory(vec![DirEntry::File(2)])];
    let two = vec![DirEntry::Directory(vec![DirEntry::File(2)]), DirEntry::File(1)];
    assert_eq!(calculate_dir_stats(&one), calculate_dir_stats(&two));
    let three = vec![DirEntry::Unreadable, DirEntry::File(1)];
    let four = vec![DirEntry::File(1), DirEntry::Unreadable];
    assert_eq!(calculate_dir_stats(&three), calculate_dir_stats(&four));
}

#[test]
fn blocked_paths_are_listed() {
    let list = blocked_paths(Some("/home/me"), None);
    assert_eq!(list.len(), 22);
    for p in [
        "/", "/home", "/etc", "/var", "/usr", "/sys", "/proc", "/dev", "/home/me", "/home/me/.ssh",
        "/home/me/.gnupg", "/home/me/.config", "/home/me/.local", "/home/me/.pki",
        "/home/me/Desktop", "/home/me/Documents", "/home/me/Downloads", "/home/me/Music",
        "/home/me/Pictures", "/home/me/Public", "/home/me/Templates", "/home/me/Videos",
    ] {
        assert!(list.contains(&b(p)), "{p}");
    }
    assert_eq!(blocked_paths(None, None)[8], b("/nonexistent"));
    assert_eq!(user_dirs_file(Some("/home/me")), b("/home/me/.config/user-dirs.dirs"));
    assert_eq!(user_dirs_file(None), b("/nonexistent/.config/user-dirs.dirs"));
}

#[test]
fn desktop_names_more() {
    let text = "# XDG_X=\"$HOME/no\"\nXDG_DOWNLOAD_DIR=\"$HOME/Herunter\"\r\n  XDG_A=\"$HOME/b=\"$HOME/c\"\nOTHER=\"$HOME/no\"\nXDG_B=\"/abs\"\nXDG_C=\"$HOME/\"";
    let list = blocked_paths(Some("/h"), Some(text));
    let extra: Vec<Vec<u8>> = list[22..].to_vec();
    assert_eq!(extra, vec![b("/h/Herunter"), b("/h/b"), b("/h/")]);
}

#[test]
fn sensitive_dropzones_are_refused() {
    let blocked = vec![Some(b("/home/me")), None, Some(b("/etc"))];
    assert_eq!(validate_dropzone(None, &blocked), Err(DropzoneError::Unresolved));
    assert_eq!(
        validate_dropzone(Some(&b("/home/me")), &blocked),
        Err(DropzoneError::Sensitive)
    );
    assert_eq!(validate_dropzone(Some(&b("/etc/")), &blocked), Err(DropzoneError::Sensitive));
    assert_eq!(validate_dropzone(Some(&b("/home/me/games")), &blocked), Ok(()));
    assert_eq!(validate_dropzone(Some(&b("/home")), &blocked), Ok(()));
}

#[test]
fn consent() {
    assert_eq!(confirmation(false, false, true), Err(DropzoneError::NotADirectory));
    assert_eq!(confirmation(true, false, true), Err(DropzoneError::Uncounted));
    assert_eq!(confirmation(true, true, true), Ok(Confirmation::Approved));
    assert_eq!(confirmation(true, true, false), Ok(Confirmation::Ask));
    for yes in ["y", "Y", "yes\n", " YeS \r\n", "YES"] {
        assert!(answer_consents(yes), "{yes:?}");
    }
    for no in ["", "\n", "n", "no", "yess", "y e s", "ye"] {
        assert!(!answer_consents(no), "{no:?}");
    }
}

#[test]
fn contents_are_told() {
    assert_eq!(contents_line(14, 4509715661), "Contains: 14 files (4.2 GB)");
    assert_eq!(contents_line(1, 12), "Contains: 1 files (12 bytes)");
}

#[test]
fn unreadable_entries_spoil_the_totals() {
    let deep = vec![
        DirEntry::File(1),
        DirEntry::Directory(vec![DirEntry::File(2), DirEntry::Directory(vec![DirEntry::Unreadable])]),
    ];
    assert_eq!(calculate_dir_stats(&deep), Err(StatsError::Unreadable));
    let both = vec![DirEntry::File(u64::MAX), DirEntry::File(1), DirEntry::Unreadable];
    assert_eq!(calculate_dir_stats(&both), Err(StatsError::Unreadable));
}

#[test]
fn prompt_is_the_documented_one() {
    let path = "/home/user/Downloads/Repack";
    let p = check_and_prompt(path, true, Some((14, 4509715661)), false).unwrap();
    assert_eq!(
        p.text,
        "Mounting Dropzone: /home/user/Downloads/Repack\nContains: 14 files (4.2 GB)\nWarning: These files will be visible (read-only) to the untrusted process.\nDo you want to proceed? [y/N] "
    );
    assert_eq!(p.confirmation, Confirmation::Ask);
    assert!(!answer_consents("\n"));
    let p = check_and_prompt(path, true, Some((14, 4509715661)), true).unwrap();
    assert_eq!(
        p.text,
        "Mounting Dropzone: /home/user/Downloads/Repack\nContains: 14 files (4.2 GB)\nWarning: These files will be visible (read-only) to the untrusted process.\n"
    );
    assert_eq!(p.confirmation, Confirmation::Approved);
    assert_eq!(
        check_and_prompt(path, false, None, true).unwrap_err(),
        DropzoneError::NotADirectory
    );
    assert_eq!(check_and_prompt(path, true, None, true).unwrap_err(), DropzoneError::Uncounted);
}
