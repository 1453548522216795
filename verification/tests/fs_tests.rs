use easy_fs::efs::EasyFileSystem;
use easy_fs::os_inode::{creat_hard_link, delete_file, open_file, OSInode, OpenFlags, StatMode};
use easy_fs::process::{sys_exec, sys_spawn};
use easy_fs::vfs::{root_inode, Inode};

fn fresh_fs() -> EasyFileSystem {
    EasyFileSystem::new(16, 64)
}

fn free_data_blocks(fs: &EasyFileSystem) -> usize {
    fs.data_bitmap.iter().filter(|b| !**b).count()
}

#[test]
fn write_then_read_round_trip() {
    let mut fs = fresh_fs();
    let root = root_inode(&fs);
    let file = root.create(&mut fs, "hello").expect("fresh name");
    let data: Vec<u8> = b"the quick brown fox".to_vec();
    let written = file.write_at(&mut fs, 0, &data);
    assert_eq!(written, data.len());
    let mut buf: Vec<u8> = vec![0; data.len()];
    let read = file.read_at(&fs, 0, &mut buf);
    assert_eq!(read, data.len());
    assert_eq!(buf, data);
}

#[test]
fn create_same_name_twice_fails_without_damage() {
    let mut fs = fresh_fs();
    let root = root_inode(&fs);
    let file = root.create(&mut fs, "once").expect("fresh name");
    let data: Vec<u8> = vec![7, 8, 9];
    file.write_at(&mut fs, 0, &data);
    assert!(root.create(&mut fs, "once").is_none());
    let mut buf: Vec<u8> = vec![0; 3];
    assert_eq!(file.read_at(&fs, 0, &mut buf), 3);
    assert_eq!(buf, data);
    assert_eq!(root.ls(&fs).len(), 1);
}

#[test]
fn find_present_and_absent() {
    let mut fs = fresh_fs();
    let root = root_inode(&fs);
    let file = root.create(&mut fs, "here").expect("fresh name");
    let found = root.find(&fs, "here").expect("created name is found");
    assert_eq!(found.get_inode_id(&fs), file.get_inode_id(&fs));
    assert!(root.find(&fs, "gone").is_none());
}

#[test]
fn hard_link_counts_links() {
    let mut fs = fresh_fs();
    let root = root_inode(&fs);
    let a = root.create(&mut fs, "a").expect("fresh name");
    assert_eq!(a.get_strong_count(&fs), 1);
    let data: Vec<u8> = b"shared bytes".to_vec();
    a.write_at(&mut fs, 0, &data);
    let b = root
        .create_from_inode(&mut fs, "b", &a)
        .expect("name b is free");
    assert_eq!(a.get_strong_count(&fs), 2);
    assert_eq!(b.get_inode_id(&fs), a.get_inode_id(&fs));
    // linking under a taken name fails
    assert!(root.create_from_inode(&mut fs, "b", &a).is_none());
    // deleting one name keeps the content reachable through the other
    assert_eq!(root.delete_entry(&mut fs, "a"), 0);
    let b2 = root.find(&fs, "b").expect("second name survives");
    assert_eq!(b2.get_strong_count(&fs), 1);
    let mut buf: Vec<u8> = vec![0; data.len()];
    assert_eq!(b2.read_at(&fs, 0, &mut buf), data.len());
    assert_eq!(buf, data);
}

#[test]
fn delete_both_names_frees_the_slot_for_reuse() {
    let mut fs = fresh_fs();
    let root = root_inode(&fs);
    let a = root.create(&mut fs, "x").expect("fresh name");
    let id = a.get_inode_id(&fs);
    root.create_from_inode(&mut fs, "y", &a).expect("free name");
    assert_eq!(root.delete_entry(&mut fs, "x"), 0);
    assert_eq!(root.delete_entry(&mut fs, "y"), 0);
    assert!(!fs.inode_bitmap[id]);
    // the freed slot is the lowest free one, so the next create reuses it
    let again = root.create(&mut fs, "z").expect("fresh name");
    assert_eq!(again.get_inode_id(&fs), id);
}

#[test]
fn delete_compacts_by_swapping_in_the_last_entry() {
    let mut fs = fresh_fs();
    let root = root_inode(&fs);
    root.create(&mut fs, "a").expect("fresh name");
    root.create(&mut fs, "b").expect("fresh name");
    root.create(&mut fs, "c").expect("fresh name");
    assert_eq!(root.delete_entry(&mut fs, "a"), 0);
    let names = root.ls(&fs);
    assert_eq!(names.len(), 2);
    // the last entry moved into the freed slot
    assert_eq!(names[0], "c");
    assert_eq!(names[1], "b");
}

#[test]
fn delete_only_entry_leaves_empty_directory() {
    let mut fs = fresh_fs();
    let root = root_inode(&fs);
    root.create(&mut fs, "only").expect("fresh name");
    assert_eq!(root.ls(&fs).len(), 1);
    assert_eq!(root.delete_entry(&mut fs, "only"), 0);
    assert_eq!(root.ls(&fs).len(), 0);
}

#[test]
fn delete_missing_name_reports_failure() {
    let mut fs = fresh_fs();
    let root = root_inode(&fs);
    assert_eq!(root.delete_entry(&mut fs, "nothing"), -1);
}

#[test]
fn write_past_end_grows_by_exactly_the_needed_blocks() {
    let mut fs = fresh_fs();
    let root = root_inode(&fs);
    let file = root.create(&mut fs, "grow").expect("fresh name");
    let free0 = free_data_blocks(&fs);
    let data: Vec<u8> = vec![0xAB; 100];
    // offset 600 and 100 bytes of data need two 512-byte blocks
    assert_eq!(file.write_at(&mut fs, 600, &data), 100);
    let free1 = free_data_blocks(&fs);
    assert_eq!(free0 - free1, 2);
    // the gap before the written range reads back as zeros
    let mut buf: Vec<u8> = vec![1; 700];
    assert_eq!(file.read_at(&fs, 0, &mut buf), 700);
    assert!(buf[..600].iter().all(|b| *b == 0));
    assert!(buf[600..].iter().all(|b| *b == 0xAB));
}

#[test]
fn clear_frees_all_blocks_and_is_idempotent() {
    let mut fs = fresh_fs();
    let root = root_inode(&fs);
    let file = root.create(&mut fs, "temp").expect("fresh name");
    let free0 = free_data_blocks(&fs);
    let data: Vec<u8> = vec![5; 1000];
    file.write_at(&mut fs, 0, &data);
    assert_eq!(free_data_blocks(&fs), free0 - 2);
    file.clear(&mut fs);
    assert_eq!(free_data_blocks(&fs), free0);
    // clearing an already-empty file frees nothing
    file.clear(&mut fs);
    assert_eq!(free_data_blocks(&fs), free0);
    let mut buf: Vec<u8> = vec![9; 4];
    assert_eq!(file.read_at(&fs, 0, &mut buf), 0);
    assert_eq!(buf, vec![9; 4]);
}

#[test]
fn serialized_creates_give_one_success_and_one_absence() {
    // the allocator is held exclusively for the whole operation, so two
    // racing creations run in some order; replay both orders
    for _ in 0..2 {
        let mut fs = fresh_fs();
        let root = root_inode(&fs);
        let first = root.create(&mut fs, "race");
        let second = root.create(&mut fs, "race");
        assert!(first.is_some());
        assert!(second.is_none());
        assert_eq!(root.ls(&fs).len(), 1);
    }
}

#[test]
fn open_file_modes() {
    let mut fs = fresh_fs();
    let root = root_inode(&fs);
    // opening a missing file without the create flag fails
    assert!(open_file(&mut fs, &root, "f", OpenFlags::rdonly()).is_none());
    // the create flag makes it
    let f = open_file(
        &mut fs,
        &root,
        "f",
        OpenFlags::create().union(OpenFlags::rdwr()),
    )
    .expect("create makes the file");
    assert!(f.readable() && f.writable());
    let inode = root.find(&fs, "f").expect("created");
    inode.write_at(&mut fs, 0, b"abcdef");
    // reopening with create empties it
    open_file(&mut fs, &root, "f", OpenFlags::create()).expect("reopen");
    let mut buf: Vec<u8> = vec![0; 6];
    assert_eq!(inode.read_at(&fs, 0, &mut buf), 0);
    // write again, then truncate on open
    inode.write_at(&mut fs, 0, b"xyz");
    open_file(&mut fs, &root, "f", OpenFlags::trunc()).expect("exists");
    assert_eq!(inode.read_at(&fs, 0, &mut buf), 0);
    // write-only flag
    let (r, w) = (OpenFlags::wronly().read_write().0, OpenFlags::wronly().read_write().1);
    assert!(!r && w);
    let (r, w) = (OpenFlags::rdonly().read_write().0, OpenFlags::rdonly().read_write().1);
    assert!(r && !w);
}

#[test]
fn read_all_and_stat() {
    let mut fs = fresh_fs();
    let root = root_inode(&fs);
    let inode = root.create(&mut fs, "blob").expect("fresh name");
    let data: Vec<u8> = (0..=255u8).cycle().take(1300).collect();
    inode.write_at(&mut fs, 0, &data);
    let mut os_inode = OSInode::new(true, false, inode);
    let all = os_inode.read_all(&fs);
    assert_eq!(all, data);
    // a second read from the cursor at the end returns nothing
    assert_eq!(os_inode.read_all(&fs).len(), 0);
    let stat = os_inode.get_stat(&fs);
    assert_eq!(stat.ino, inode.get_inode_id(&fs) as u64);
    assert_eq!(stat.nlink, 1);
    assert!(stat.mode == StatMode::file());
    // the root is a directory
    let rootwrap = OSInode::new(true, false, root);
    assert!(rootwrap.get_stat(&fs).mode == StatMode::dir());
}

#[test]
fn hard_link_helpers() {
    let mut fs = fresh_fs();
    let root = root_inode(&fs);
    let f = open_file(&mut fs, &root, "orig", OpenFlags::create()).expect("create");
    let linked = creat_hard_link(&mut fs, &root, "alias", &f).expect("free name");
    assert_eq!(linked.get_strong_count(&fs), 2);
    assert_eq!(delete_file(&mut fs, &root, "orig"), 0);
    assert_eq!(delete_file(&mut fs, &root, "orig"), -1);
    assert!(root.find(&fs, "alias").is_some());
}

#[test]
fn directory_and_file_kinds() {
    let mut fs = fresh_fs();
    let root = root_inode(&fs);
    assert!(root.is_dir(&fs));
    assert!(!root.is_file(&fs));
    let f = root.create(&mut fs, "plain").expect("fresh name");
    assert!(f.is_file(&fs));
    assert!(!f.is_dir(&fs));
    assert_eq!(root.get_inode_id(&fs), 0);
    let h = Inode::new(fs.inode_area_start_block, 0);
    assert_eq!(h.get_inode_id(&fs), 0);
}

#[test]
fn exec_and_spawn_read_the_program_image() {
    let mut fs = fresh_fs();
    let root = root_inode(&fs);
    let prog = root.create(&mut fs, "init").expect("fresh name");
    let image: Vec<u8> = vec![0x7f, b'E', b'L', b'F', 1, 2, 3];
    prog.write_at(&mut fs, 0, &image);
    let args = vec![String::from("init"), String::from("-v")];
    let (data, args_back, argc) =
        sys_exec(&mut fs, &root, "init", args.clone()).expect("program exists");
    assert_eq!(data, image);
    assert_eq!(args_back, args);
    assert_eq!(argc, 2);
    assert!(sys_exec(&mut fs, &root, "missing", Vec::new()).is_none());
    let spawned = sys_spawn(&mut fs, &root, "init").expect("program exists");
    assert_eq!(spawned, image);
    assert!(sys_spawn(&mut fs, &root, "missing").is_none());
}

#[test]
fn names_survive_listing_in_any_alphabet() {
    let mut fs = fresh_fs();
    let root = root_inode(&fs);
    root.create(&mut fs, "héllo_wörld").expect("fresh name");
    let names = root.ls(&fs);
    assert_eq!(names, vec![String::from("héllo_wörld")]);
    assert!(root.find(&fs, "héllo_wörld").is_some());
}

#[test]
fn scattered_read_and_write() {
    let mut fs = fresh_fs();
    let root = root_inode(&fs);
    let inode = root.create(&mut fs, "scatter").expect("fresh name");
    let mut writer = OSInode::new(false, true, inode);
    let regions: Vec<Vec<u8>> = vec![b"abc".to_vec(), b"defg".to_vec(), b"h".to_vec()];
    assert_eq!(writer.write(&mut fs, &regions), 8);
    assert_eq!(writer.write(&mut fs, &regions), 8);
    // the file now holds both rounds back to back
    let mut reader = OSInode::new(true, false, inode);
    assert_eq!(reader.read_all(&fs), b"abcdefghabcdefgh".to_vec());
    // a scattered read fills the regions in order and stops at the end
    let mut reader2 = OSInode::new(true, false, inode);
    let mut into: Vec<Vec<u8>> = vec![vec![0; 5], vec![0; 5], vec![0; 10]];
    assert_eq!(reader2.read(&fs, &mut into), 16);
    assert_eq!(into[0], b"abcde".to_vec());
    assert_eq!(into[1], b"fghab".to_vec());
    assert_eq!(&into[2][..6], b"cdefgh");
    assert_eq!(&into[2][6..], &[0, 0, 0, 0][..]);
    // at the end of the file a further read returns nothing
    let mut tail: Vec<Vec<u8>> = vec![vec![0; 4]];
    assert_eq!(reader2.read(&fs, &mut tail), 0);
    assert_eq!(tail[0], vec![0; 4]);
}
