//! Certificate names.
//!
//! A certificate is a file whose presence says that a symbol has been
//! certified. The file is named after the symbol: every byte of the symbol's
//! UTF-8 encoding that is not an ASCII letter or digit is escaped as `%` and
//! two hexadecimal digits, and `.json` is appended.

use crate::name_set::NameSet;
use crate::name_set::lemma_ascending_unique;
use crate::name_set::names_view;
use crate::text::chars_of;
use vstd::prelude::*;
use vstd::string::*;
use vstd::utf8::*;

verus! {

/// What a certificate file holds: the time at which the certificate was
/// written, in seconds and nanoseconds since the start of 1970 in UTC.
#[derive(Clone, Copy, Debug, PartialEq, Eq, Structural)]
pub struct Cert {
    /// The seconds of the time stamp.
    pub seconds: i64,
    /// The nanoseconds of the time stamp; a leap second counts up to two
    /// seconds.
    pub nanoseconds: u32,
}

impl Cert {
    /// Whether the nanoseconds are below two seconds.
    pub open spec fn wf(&self) -> bool {
        self.nanoseconds < 2_000_000_000
    }

    /// The certificate with the given time stamp, if the nanoseconds are
    /// below two seconds.
    pub fn new(seconds: i64, nanoseconds: u32) -> (r: Option<Cert>)
        ensures
            r is Some <==> nanoseconds < 2_000_000_000,
            r matches Some(cert) ==> cert.wf() && cert.seconds == seconds && cert.nanoseconds
                == nanoseconds,
    {
        if nanoseconds < 2_000_000_000 {
            Some(Cert { seconds, nanoseconds })
        } else {
            None
        }
    }
}

/// Whether a byte is an ASCII letter or digit.
pub open spec fn is_alphanumeric(b: u8) -> bool {
    ||| 0x30 <= b <= 0x39
    ||| 0x41 <= b <= 0x5a
    ||| 0x61 <= b <= 0x7a
}

/// The upper-case hexadecimal digit for a value below sixteen.
pub open spec fn hex_digit(d: int) -> u8 {
    if d < 10 {
        (0x30 + d) as u8
    } else {
        (0x37 + d) as u8
    }
}

/// The escaped form of one byte: the byte itself where it is a letter or a
/// digit, else `%` and its two hexadecimal digits.
pub open spec fn escaped_byte(b: u8) -> Seq<u8> {
    if is_alphanumeric(b) {
        seq![b]
    } else {
        seq![0x25u8, hex_digit(b as int / 16), hex_digit(b as int % 16)]
    }
}

/// The escaped form of a byte sequence.
pub open spec fn escaped(bytes: Seq<u8>) -> Seq<u8>
    decreases bytes.len(),
{
    if bytes.len() == 0 {
        seq![]
    } else {
        escaped_byte(bytes[0]) + escaped(bytes.drop_first())
    }
}

/// The text whose characters are the given ASCII bytes.
pub open spec fn ascii_text(bytes: Seq<u8>) -> Seq<char> {
    Seq::new(bytes.len(), |i: int| bytes[i] as char)
}

/// The file-name form of a symbol identifier.
pub open spec fn encoded_name(name: Seq<char>) -> Seq<char> {
    ascii_text(escaped(encode_utf8(name)))
}

/// The value of a hexadecimal digit of either case.
pub open spec fn hex_value(b: u8) -> Option<u8> {
    if 0x30 <= b <= 0x39 {
        Some((b - 0x30) as u8)
    } else if 0x41 <= b <= 0x46 {
        Some((b - 0x37) as u8)
    } else if 0x61 <= b <= 0x66 {
        Some((b - 0x57) as u8)
    } else {
        None
    }
}

/// Whether the bytes start with `%` and two hexadecimal digits.
pub open spec fn starts_with_escape(bytes: Seq<u8>) -> bool {
    &&& bytes.len() >= 3
    &&& bytes[0] == 0x25
    &&& hex_value(bytes[1]) is Some
    &&& hex_value(bytes[2]) is Some
}

/// The bytes that an escaped byte sequence stands for: every `%` that two
/// hexadecimal digits follow is replaced, with them, by the byte they denote;
/// every other byte stands for itself.
pub open spec fn unescaped(bytes: Seq<u8>) -> Seq<u8>
    decreases bytes.len(),
{
    if bytes.len() == 0 {
        seq![]
    } else if starts_with_escape(bytes) {
        seq![(hex_value(bytes[1])->0 * 16 + hex_value(bytes[2])->0) as u8] + unescaped(
            bytes.skip(3),
        )
    } else {
        seq![bytes[0]] + unescaped(bytes.skip(1))
    }
}

/// What decoding makes of a file name whose unescaped bytes are not UTF-8:
/// the text with each malformed part replaced by U+FFFD.
pub uninterp spec fn lossy_decoded(encoded: Seq<char>) -> Seq<char>;

/// The symbol identifier that a file-name form stands for.
pub open spec fn decoded_name(encoded: Seq<char>) -> Seq<char> {
    let bytes = unescaped(encode_utf8(encoded));
    if valid_utf8(bytes) {
        decode_utf8(bytes)
    } else {
        lossy_decoded(encoded)
    }
}

/// Calls `percent_encoding::utf8_percent_encode` with the set
/// `NON_ALPHANUMERIC` and collects what it yields.
///
/// Trusted: the result is the ASCII text in which every byte of the name's
/// UTF-8 encoding stands for itself if it is an ASCII letter or digit, and is
/// otherwise written as `%` followed by its two upper-case hexadecimal digits.
#[verifier::external_body]
fn percent_encode(name: &str) -> (res: String)
    ensures
        res@ == ascii_text(escaped(encode_utf8(name@))),
{
    percent_encoding::utf8_percent_encode(name, percent_encoding::NON_ALPHANUMERIC).to_string()
}

/// Calls `percent_encoding::percent_decode_str` and its `decode_utf8_lossy`.
///
/// Trusted: every `%` followed by two hexadecimal digits is replaced by the
/// byte they denote; where the bytes so obtained are UTF-8 the result is the
/// text they encode, and otherwise it is a function of the input alone.
#[verifier::external_body]
fn percent_decode_lossy(encoded: &str) -> (res: String)
    ensures
        valid_utf8(unescaped(encode_utf8(encoded@))) ==> res@ == decode_utf8(
            unescaped(encode_utf8(encoded@)),
        ),
        !valid_utf8(unescaped(encode_utf8(encoded@))) ==> res@ == lossy_decoded(encoded@),
{
    percent_encoding::percent_decode_str(encoded).decode_utf8_lossy().to_string()
}

/// Whether a character may stand in an encoded name: an ASCII letter, an
/// ASCII digit, or `%`.
pub open spec fn is_safe(c: char) -> bool {
    ||| '0' <= c <= '9'
    ||| 'A' <= c <= 'Z'
    ||| 'a' <= c <= 'z'
    ||| c == '%'
}

/// Encodes a symbol identifier for use as a file name: every byte of its
/// UTF-8 encoding that is not an ASCII letter or digit is written as `%` and
/// two hexadecimal digits.
pub fn encode_name(name: &str) -> (res: String)
    ensures
        res@ == encoded_name(name@),
        forall|i: int| 0 <= i < res@.len() ==> is_safe(#[trigger] res@[i]),
{
    let res = percent_encode(name);
    proof {
        lemma_encoded_name_is_safe(name@);
        assert forall|i: int| 0 <= i < res@.len() implies is_safe(#[trigger] res@[i]) by {
            assert(is_safe(encoded_name(name@)[i]));
        }
    }
    res
}

/// Decodes a file name back to the symbol identifier it stands for.
pub fn decode_name(encoded: &str) -> (res: String)
    ensures
        res@ == decoded_name(encoded@),
{
    percent_decode_lossy(encoded)
}

/// The name of the certificate file of a symbol.
pub open spec fn cert_file_of(name: Seq<char>) -> Seq<char> {
    encoded_name(name) + ".json"@
}

/// Whether a file of the certificate directory is a certificate: its name
/// ends in `.json` and has something before that.
pub open spec fn is_cert_file(file: Seq<char>) -> bool {
    file.len() > 5 && file.subrange(file.len() - 5, file.len() as int) == ".json"@
}

/// The symbol that a file of the certificate directory certifies, if the file
/// is a certificate.
pub open spec fn subject_of(file: Seq<char>) -> Option<Seq<char>> {
    if is_cert_file(file) {
        Some(decoded_name(file.subrange(0, file.len() - 5)))
    } else {
        None
    }
}

/// The symbols that the files of a certificate directory certify.
pub open spec fn subjects_of(files: Seq<Seq<char>>) -> Set<Seq<char>> {
    Set::new(
        |name: Seq<char>|
            exists|i: int| 0 <= i < files.len() && #[trigger] subject_of(files[i]) == Some(name),
    )
}

/// The name of the certificate file of a symbol: its encoded name and the
/// extension `.json`.
pub fn cert_file_name(name: &str) -> (file: String)
    ensures
        file@ == cert_file_of(name@),
{
    let mut file = encode_name(name);
    file.append(".json");
    file
}

/// The symbol that a file of the certificate directory certifies. A file
/// whose name does not end in `.json`, or has nothing before that, is no
/// certificate.
pub fn cert_subject(file_name: &str) -> (subject: Option<String>)
    ensures
        subject is Some <==> subject_of(file_name@) is Some,
        subject matches Some(s) ==> Some(s@) == subject_of(file_name@),
{
    let chars = chars_of(file_name);
    let n = chars.len();
    proof {
        reveal_strlit(".json");
    }
    if n > 5 && chars[n - 5] == '.' && chars[n - 4] == 'j' && chars[n - 3] == 's' && chars[n - 2]
        == 'o' && chars[n - 1] == 'n' {
        assert(file_name@.subrange(n - 5, n as int) =~= ".json"@);
        let stem = file_name.substring_char(0, n - 5);
        Some(decode_name(stem))
    } else {
        proof {
            if is_cert_file(file_name@) {
                let tail = file_name@.subrange(n - 5, n as int);
                assert(tail[0] == '.' && tail[1] == 'j' && tail[2] == 's' && tail[3] == 'o'
                    && tail[4] == 'n');
            }
        }
        None
    }
}

/// The symbols that have a certificate, given the names of the files of the
/// certificate directory. Files that are no certificates are passed over.
pub fn get_existing_certs(file_names: &Vec<String>) -> (certs: NameSet)
    ensures
        certs.wf(),
        certs@ == subjects_of(names_view(file_names@)),
{
    let ghost files = names_view(file_names@);
    let mut certs = NameSet::new();
    let mut i: usize = 0;
    while i < file_names.len()
        invariant
            i <= file_names.len(),
            files == names_view(file_names@),
            certs.wf(),
            certs@ == subjects_of(files.take(i as int)),
        decreases file_names.len() - i,
    {
        let ghost before = certs@;
        let subject = cert_subject(file_names[i].as_str());
        match subject {
            Some(name) => {
                certs.insert(name);
            },
            None => {},
        }
        proof {
            let now = files.take(i + 1);
            let was = files.take(i as int);
            assert(now =~= was.push(files[i as int]));
            assert(certs@ =~= subjects_of(now)) by {
                assert forall|x: Seq<char>| certs@.contains(x) implies subjects_of(now).contains(
                    x,
                ) by {
                    if before.contains(x) {
                        let k = choose|k: int|
                            0 <= k < was.len() && #[trigger] subject_of(was[k]) == Some(x);
                        assert(subject_of(now[k]) == Some(x));
                    } else {
                        assert(subject_of(now[i as int]) == Some(x));
                    }
                }
                assert forall|x: Seq<char>| subjects_of(now).contains(x) implies certs@.contains(
                    x,
                ) by {
                    let k = choose|k: int|
                        0 <= k < now.len() && #[trigger] subject_of(now[k]) == Some(x);
                    if k < i {
                        assert(subject_of(was[k]) == Some(x));
                        assert(before.contains(x));
                    }
                }
            }
        }
        i = i + 1;
    }
    assert(files.take(file_names.len() as int) =~= files);
    certs
}

/// Records in the set of certified symbols that a certificate is written for
/// `name`, and returns the name of the certificate file. Writing the
/// certificate of a symbol that has one already is in order: the file is
/// written anew.
pub fn create_cert(certs: &mut NameSet, name: &str) -> (file: String)
    requires
        old(certs).wf(),
    ensures
        final(certs).wf(),
        final(certs)@ == old(certs)@.insert(name@),
        file@ == cert_file_of(name@),
{
    certs.insert(name.to_owned());
    cert_file_name(name)
}

/// Records in the set of certified symbols that the certificate of `name` is
/// deleted, and returns the name of the file to remove. For a symbol without
/// a certificate there is nothing to remove: the result is `None` and the set
/// is unchanged.
pub fn delete_cert(certs: &mut NameSet, name: &str) -> (file: Option<String>)
    requires
        old(certs).wf(),
    ensures
        final(certs).wf(),
        final(certs)@ == old(certs)@.remove(name@),
        file is Some <==> old(certs)@.contains(name@),
        file matches Some(f) ==> f@ == cert_file_of(name@),
        !old(certs)@.contains(name@) ==> final(certs)@ == old(certs)@ && final(certs).listing()
            == old(certs).listing(),
{
    let ghost before = certs.listing();
    if certs.remove(name) {
        Some(cert_file_name(name))
    } else {
        proof {
            assert(certs@ =~= old(certs)@);
            lemma_ascending_unique(certs.listing(), before);
        }
        None
    }
}

/// Every byte of an escaped sequence is an ASCII letter, an ASCII digit or
/// `%`.
pub proof fn lemma_escaped_is_safe(bytes: Seq<u8>)
    ensures
        forall|i: int|
            0 <= i < escaped(bytes).len() ==> is_alphanumeric(#[trigger] escaped(bytes)[i])
                || escaped(bytes)[i] == 0x25,
    decreases bytes.len(),
{
    if bytes.len() > 0 {
        lemma_escaped_is_safe(bytes.drop_first());
        let head = escaped_byte(bytes[0]);
        let tail = escaped(bytes.drop_first());
        assert forall|i: int| 0 <= i < escaped(bytes).len() implies is_alphanumeric(
            #[trigger] escaped(bytes)[i],
        ) || escaped(bytes)[i] == 0x25 by {
            if i < head.len() {
                assert(escaped(bytes)[i] == head[i]);
            } else {
                assert(escaped(bytes)[i] == tail[i - head.len()]);
            }
        }
    }
}

/// An encoded name holds nothing but ASCII letters, ASCII digits and `%`, so
/// that it can stand in a file name.
pub proof fn lemma_encoded_name_is_safe(name: Seq<char>)
    ensures
        forall|i: int| 0 <= i < encoded_name(name).len() ==> is_safe(
            #[trigger] encoded_name(name)[i],
        ),
{
    let bytes = escaped(encode_utf8(name));
    lemma_escaped_is_safe(encode_utf8(name));
    assert forall|i: int| 0 <= i < encoded_name(name).len() implies is_safe(
        #[trigger] encoded_name(name)[i],
    ) by {
        assert(is_alphanumeric(bytes[i]) || bytes[i] == 0x25);
        assert(encoded_name(name)[i] == bytes[i] as char);
    }
}

/// Every byte of an escaped sequence is ASCII.
pub proof fn lemma_escaped_is_ascii(bytes: Seq<u8>)
    ensures
        forall|i: int| 0 <= i < escaped(bytes).len() ==> #[trigger] escaped(bytes)[i] < 0x80,
    decreases bytes.len(),
{
    if bytes.len() > 0 {
        lemma_escaped_is_ascii(bytes.drop_first());
        let head = escaped_byte(bytes[0]);
        let tail = escaped(bytes.drop_first());
        assert forall|i: int| 0 <= i < escaped(bytes).len() implies #[trigger] escaped(bytes)[i]
            < 0x80 by {
            if i < head.len() {
                assert(escaped(bytes)[i] == head[i]);
            } else {
                assert(escaped(bytes)[i] == tail[i - head.len()]);
            }
        }
    }
}

/// Unescaping undoes escaping.
pub proof fn lemma_unescaped_escaped(bytes: Seq<u8>)
    ensures
        unescaped(escaped(bytes)) == bytes,
    decreases bytes.len(),
{
    if bytes.len() > 0 {
        let b = bytes[0];
        let rest = bytes.drop_first();
        let e = escaped(bytes);
        lemma_unescaped_escaped(rest);
        if is_alphanumeric(b) {
            assert(e[0] == b);
            assert(!starts_with_escape(e));
            assert(e.skip(1) =~= escaped(rest));
        } else {
            let hi = b as int / 16;
            let lo = b as int % 16;
            assert(e[0] == 0x25u8);
            assert(e[1] == hex_digit(hi));
            assert(e[2] == hex_digit(lo));
            assert(hex_value(hex_digit(hi)) == Some(hi as u8));
            assert(hex_value(hex_digit(lo)) == Some(lo as u8));
            assert(starts_with_escape(e));
            assert(e.skip(3) =~= escaped(rest));
            assert(hi * 16 + lo == b);
        }
        assert(bytes =~= seq![b] + rest);
    } else {
        assert(bytes =~= seq![]);
    }
}

/// The UTF-8 encoding of an ASCII text is the bytes it was made of.
pub proof fn lemma_ascii_text_bytes(bytes: Seq<u8>)
    requires
        forall|i: int| 0 <= i < bytes.len() ==> #[trigger] bytes[i] < 0x80,
    ensures
        encode_utf8(ascii_text(bytes)) == bytes,
{
    let text = ascii_text(bytes);
    assert(is_ascii_chars(text)) by {
        assert forall|i: int| 0 <= i < text.len() implies '\0' <= #[trigger] text[i]
            <= '\u{7f}' by {
            assert(bytes[i] < 0x80);
        }
    }
    is_ascii_chars_encode_utf8(text);
    assert(encode_utf8(text) =~= bytes) by {
        assert forall|i: int| 0 <= i < bytes.len() implies encode_utf8(text)[i] == bytes[i] by {
            assert(text[i] as u8 == encode_utf8(text)[i]);
            assert(bytes[i] < 0x80);
        }
    }
}

/// Decoding the encoded form of any name gives the name back.
pub proof fn lemma_decode_encode_round_trip(name: Seq<char>)
    ensures
        decoded_name(encoded_name(name)) == name,
{
    let bytes = encode_utf8(name);
    lemma_escaped_is_ascii(bytes);
    lemma_ascii_text_bytes(escaped(bytes));
    lemma_unescaped_escaped(bytes);
    encode_utf8_valid_utf8(name);
    encode_utf8_decode_utf8(name);
}

/// The certificate file of a symbol certifies that symbol, unless the symbol
/// identifier is empty.
pub proof fn lemma_file_names_subject(name: Seq<char>)
    requires
        name.len() > 0,
    ensures
        subject_of(cert_file_of(name)) == Some(name),
{
    reveal_strlit(".json");
    let e = encoded_name(name);
    let file = cert_file_of(name);
    let bytes = encode_utf8(name);
    assert(bytes.len() > 0) by {
        if bytes.len() == 0 {
            encode_utf8_decode_utf8(name);
            assert(bytes =~= encode_utf8(Seq::<char>::empty()));
            encode_utf8_decode_utf8(Seq::<char>::empty());
        }
    }
    assert(escaped(bytes).len() > 0) by {
        assert(escaped_byte(bytes[0]).len() > 0);
    }
    assert(file.subrange(file.len() - 5, file.len() as int) =~= ".json"@);
    assert(file.subrange(0, file.len() - 5) =~= e);
    lemma_decode_encode_round_trip(name);
}

/// Two names with the same encoded form are the same name.
pub proof fn lemma_encoded_name_injective(a: Seq<char>, b: Seq<char>)
    requires
        encoded_name(a) == encoded_name(b),
    ensures
        a == b,
{
    lemma_decode_encode_round_trip(a);
    lemma_decode_encode_round_trip(b);
}

} // verus!
