use aoclib::StrExt;

fn numbers(s: &str) -> Vec<&str> {
    let mut it = s.extract_numbers();
    let mut out = Vec::new();
    while let Some(n) = it.next() {
        out.push(n);
    }
    out
}

#[test]
fn empty() {
    assert_eq!("".extract_numbers().next(), None);
}

#[test]
fn no_number_gibberish() {
    let result = "afsdiufasndofasuefcvyy-yxcv<yofasoiehfavyx-<üdfijuanfhudsfasdfapcvive"
        .extract_numbers()
        .next();
    assert_eq!(result, None);
}

#[test]
fn one() {
    let expected = ["1"];
    let actual = numbers("1");
    assert_eq!(actual, expected);
}

#[test]
fn one_surrounded_by_gibberish() {
    let expected = ["1"];
    let actual = numbers("asdfiunfa$öifha1asdfubanvdualvne");
    assert_eq!(actual, expected);
}

#[test]
fn minus_one() {
    let expected = ["-1"];
    let actual = numbers("-1");
    assert_eq!(actual, expected);
}

#[test]
fn space_separated() {
    let expected = ["324", "-234", "83", "848", "-7", "11", "456789654345"];
    let actual = numbers("324 -234 83 848 -7 11 456789654345");
    assert_eq!(actual, expected);
}

#[test]
fn sign_separated() {
    let expected = ["7", "-7", "-23", "123", "-56"];
    let actual = numbers("7-7-23+123-56");
    assert_eq!(actual, expected);
}

#[test]
fn gibberish() {
    let expected = ["87", "32", "8", "2", "-3", "9", "9", "238", "37423", "-65"];
    let actual =
        numbers("asd87fb32asod8f2b-3brn9a9fzdnqp238ehqw37423rfasldfhasldhualksb-65faüe$spof");
    assert_eq!(actual, expected);
}

#[test]
fn doc_examples() {
    assert_eq!(numbers("th1s w111 3xtr4ct 411 numb3rs"), ["1", "111", "3", "4", "411", "3"]);
    assert_eq!(numbers("it also works with negative numbers: -458654-324"), ["-458654", "-324"]);
}

#[test]
fn lone_and_doubled_signs() {
    assert_eq!(numbers("--5 - 6-"), ["-5", "6"]);
    assert_eq!(numbers("-"), Vec::<&str>::new());
}

#[test]
fn exhausted_scanner_stays_exhausted() {
    let mut it = "a1b".extract_numbers();
    assert_eq!(it.next(), Some("1"));
    assert_eq!(it.next(), None);
    assert_eq!(it.next(), None);
}
