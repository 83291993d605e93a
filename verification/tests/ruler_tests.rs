use clformat::ruler::Ruler;

#[allow(dead_code)]
#[derive(Debug)]
struct Noog {
    thing: usize,
}

#[test]
fn debug_length() {
    let zork = Noog { thing: 342 };

    let s = format!(" {:?} ", zork);

    let mut ruler = Ruler::default();
    ruler.write_str(&s);

    assert_eq!(s.len(), ruler.length());
}

#[test]
fn ruler_accumulates() {
    let mut ruler = Ruler::default();
    assert_eq!(0, ruler.length());
    ruler.write_str("abc");
    ruler.write_str("");
    ruler.write_str("de");
    assert_eq!(5, ruler.length());
}
