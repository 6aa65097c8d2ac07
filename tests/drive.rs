use cardv_backup::drive::{drives_from_mask, DriveScan};

fn folders(letters: &[char]) -> Vec<String> {
    letters.iter().map(|d| format!("{}:\\CARDV\\Movie", d)).collect()
}

#[test]
fn mask_bits_name_drive_letters() {
    assert_eq!(drives_from_mask(0b101), vec!['A', 'C']);
    assert_eq!(drives_from_mask(0), Vec::<char>::new());
    assert_eq!(drives_from_mask(1 << 25), vec!['Z']);
    assert_eq!(drives_from_mask(1 << 26), Vec::<char>::new());
    assert_eq!(drives_from_mask(u32::MAX).len(), 26);
    assert!(drives_from_mask(0b100).contains(&'C'));
}

#[test]
fn each_pass_looks_at_new_drives_only() {
    let mut scan = DriveScan::new();
    assert_eq!(scan.pass(vec!['C', 'D']), folders(&['C', 'D']));
    assert_eq!(scan.pass(vec!['C', 'D']), folders(&[]));
    assert_eq!(scan.pass(vec!['C', 'D', 'E']), folders(&['E']));
    assert_eq!(scan.pass(vec!['C']), folders(&[]));
    assert_eq!(scan.pass(vec!['C', 'E']), folders(&['E']));
}

#[test]
fn recordings_folder_layout() {
    let mut scan = DriveScan::new();
    assert_eq!(scan.pass(vec!['E']), vec!["E:\\CARDV\\Movie".to_string()]);
}
