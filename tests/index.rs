use stabping::addr_index::{index_line, split_lines, AddrIndex};
use stabping::error::{AugmentedFileError, ManagerError};
use stabping::kinds::Kind;
use stabping::manager::bootstrap_options;

#[test]
fn fresh_manager_bootstraps_google() {
    let mut ix = AddrIndex::new();
    let o = bootstrap_options(Kind::TcpPing, &mut ix).ok().unwrap();
    assert_eq!(o.nonce, 0);
    assert_eq!(o.addrs, vec![0]);
    assert_eq!(o.interval, 10_000);
    assert_eq!(o.avg_across, 3);
    assert_eq!(o.pause, 100);
    assert_eq!(ix.to_text(), "google.com:80\n");
}

#[test]
fn bootstrap_keeps_existing_id() {
    let mut ix = AddrIndex::from_text("8.8.8.8:53\ngoogle.com:80\n").ok().unwrap();
    let o = bootstrap_options(Kind::TcpPing, &mut ix).ok().unwrap();
    assert_eq!(o.addrs, vec![1]);
    assert_eq!(ix.len(), 2);
}

#[test]
fn ids_and_addresses_correspond() {
    let seeds = ["b.example:80", "a.example:443", "10.0.0.1:22", "c.example:8080"];
    let mut ix = AddrIndex::new();
    for s in seeds.iter() {
        ix.add_addr(s).ok().unwrap();
    }
    for i in 0..ix.len() as u32 {
        let a = ix.get_addr(i).unwrap().clone();
        assert_eq!(ix.get_index(&a), Some(i));
    }
    for s in seeds.iter() {
        let id = ix.get_index(s).unwrap();
        assert_eq!(ix.get_addr(id).unwrap().as_str(), *s);
    }
    assert_eq!(ix.get_index("missing:1"), None);
    assert_eq!(ix.get_addr(4), None);
}

#[test]
fn adding_known_address_keeps_its_id() {
    let mut ix = AddrIndex::new();
    assert!(matches!(ix.add_addr("x:1"), Ok(0)));
    assert!(matches!(ix.add_addr("y:2"), Ok(1)));
    assert!(matches!(ix.add_addr("x:1"), Ok(0)));
    assert_eq!(ix.len(), 2);
    assert_eq!(ix.to_text(), "x:1\ny:2\n");
}

#[test]
fn address_with_line_break_is_refused() {
    let mut ix = AddrIndex::new();
    assert!(matches!(ix.add_addr("bad\naddr"), Err(ManagerError::InvalidAddrArgument)));
    assert_eq!(ix.len(), 0);
}

#[test]
fn index_survives_reopen() {
    let mut ix = AddrIndex::new();
    for s in ["one:1", "two:2", "", "three:3"].iter() {
        ix.add_addr(s).ok().unwrap();
    }
    let text = ix.to_text();
    let back = AddrIndex::from_text(&text).ok().unwrap();
    assert_eq!(back.len(), ix.len());
    for i in 0..ix.len() as u32 {
        assert_eq!(back.get_addr(i), ix.get_addr(i));
    }
    assert_eq!(back.to_text(), text);
}

#[test]
fn last_line_without_break_counts() {
    let ix = AddrIndex::from_text("a:1\nb:2").ok().unwrap();
    assert_eq!(ix.len(), 2);
    assert_eq!(ix.get_index("b:2"), Some(1));
    assert_eq!(AddrIndex::from_text("").ok().unwrap().len(), 0);
}

#[test]
fn duplicate_lines_are_a_parse_error() {
    let r = AddrIndex::from_text("a:1\nb:2\na:1\n");
    assert!(matches!(r, Err(ManagerError::IndexFileIO(AugmentedFileError::Parse(None)))));
}

#[test]
fn lines_split_on_breaks() {
    let v = split_lines("p\n\nq\n");
    assert_eq!(v, vec!["p".to_owned(), "".to_owned(), "q".to_owned()]);
    assert_eq!(index_line("host:80"), "host:80\n");
}

#[test]
fn ensure_for_addrs_adds_missing_ones() {
    let mut ix = AddrIndex::from_text("a:1\n").ok().unwrap();
    let r = ix.ensure_for_addrs(&["b:2".to_owned(), "a:1".to_owned(), "c:3".to_owned()]);
    assert!(r.is_ok());
    assert_eq!(ix.to_text(), "a:1\nb:2\nc:3\n");
}
