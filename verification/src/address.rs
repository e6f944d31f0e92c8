//! Where the game listens.
use crate::text::{chars_of, decimal_text, read_number, search_last, split, text_of, trimmed};
use vstd::prelude::*;

verus! {

/// The port the game listens on unless it is told otherwise.
pub const DEFAULT_PLUGIN_PORT: u16 = 7878;

/// Four groups of digits with dots between them.
pub open spec fn is_quad(text: Seq<char>) -> bool {
    let parts = crate::text::split_on(text, '.');
    parts.len() == 4 && forall|i: int| 0 <= i < 4 ==> crate::text::is_digits(#[trigger] parts[i])
}

/// A line of the gateway file without its port: everything before the last `:`.
pub open spec fn line_host(line: Seq<char>) -> Seq<char> {
    match crate::text::rfind(line, ":"@) {
        Some(k) => line.take(k),
        None => line,
    }
}

/// The port that a line with this text behind its last `:` gives.
pub open spec fn port_or_default(text: Seq<char>) -> u16 {
    match crate::text::number_in(text, u32::MAX as nat) {
        Some(n) => if 0 < n <= 65535 {
            n as u16
        } else {
            DEFAULT_PLUGIN_PORT
        },
        None => DEFAULT_PLUGIN_PORT,
    }
}

/// The port that a line of the gateway file gives, if it holds an address.
pub open spec fn line_port(line: Seq<char>) -> Option<u16> {
    if !is_quad(line_host(line)) {
        None
    } else {
        match crate::text::rfind(line, ":"@) {
            Some(k) => Some(port_or_default(line.skip(k + 1))),
            None => Some(DEFAULT_PLUGIN_PORT),
        }
    }
}

/// The port of the first line from `i` on that holds an address.
pub open spec fn first_port(lines: Seq<Seq<char>>, i: int) -> Option<u16>
    decreases lines.len() - i,
{
    if i < 0 || i >= lines.len() {
        None
    } else {
        match line_port(crate::text::trim(lines[i])) {
            Some(port) => Some(port),
            None => first_port(lines, i + 1),
        }
    }
}

/// The port that a gateway file gives.
pub open spec fn gateway_port(file: Seq<char>) -> Option<u16> {
    first_port(crate::text::split_on(file, '\n'), 0)
}

/// The port to dial. A setting counts before the gateway file, and one that is no port leaves the
/// default.
pub open spec fn chosen_port(setting: Option<Seq<char>>, file: Option<Seq<char>>) -> u16 {
    match setting {
        Some(text) => match crate::text::number_in(crate::text::trim(text), u16::MAX as nat) {
            Some(n) => if n != 0 {
                n as u16
            } else {
                DEFAULT_PLUGIN_PORT
            },
            None => DEFAULT_PLUGIN_PORT,
        },
        None => match file {
            Some(text) => match gateway_port(text) {
                Some(port) => port,
                None => DEFAULT_PLUGIN_PORT,
            },
            None => DEFAULT_PLUGIN_PORT,
        },
    }
}

/// Whether the text is four groups of digits with dots between them.
pub fn is_dotted_quad(s: &str) -> (b: bool)
    ensures
        b == is_quad(s@),
{
    let parts = split(s, '.');
    let ghost views = crate::text::split_on(s@, '.');
    if parts.len() != 4 {
        return false;
    }
    let mut i: usize = 0;
    while i < 4
        invariant
            i <= 4,
            parts@.len() == 4,
            views == crate::text::texts(parts@),
            views == crate::text::split_on(s@, '.'),
            forall|j: int| 0 <= j < i ==> crate::text::is_digits(#[trigger] views[j]),
        decreases 4 - i,
    {
        let part = chars_of(parts[i].as_str());
        assert(views[i as int] == part@);
        if part.len() == 0 {
            return false;
        }
        let mut k: usize = 0;
        while k < part.len()
            invariant
                k <= part@.len(),
                views == crate::text::split_on(s@, '.'),
                views.len() == 4,
                0 <= i < 4,
                views[i as int] == part@,
                forall|j: int| 0 <= j < k ==> crate::text::is_digit(#[trigger] part@[j]),
            decreases part@.len() - k,
        {
            if !('0' <= part[k] && part[k] <= '9') {
                assert(!crate::text::is_digit(views[i as int][k as int]));
                return false;
            }
            k += 1;
        }
        i += 1;
    }
    true
}

fn read_line_port(line: &str) -> (port: Option<u16>)
    ensures
        port == line_port(line@),
{
    let chars = chars_of(line);
    let colon = chars_of(":");
    match search_last(&chars, &colon) {
        Some(k) => {
            proof {
                crate::text::lemma_rfind_from(chars@, colon@, chars@.len() - colon@.len());
                reveal_strlit(":");
            }
            let host = text_of(&chars, 0, k);
            assert(host@ =~= line_host(line@));
            if !is_dotted_quad(host.as_str()) {
                return None;
            }
            let end: usize = chars.len();
            assert(k + 1 <= end);
            let text = text_of(&chars, k + 1, end);
            assert(text@ =~= line@.skip(k + 1));
            match read_number(text.as_str(), u32::MAX as u64) {
                Some(n) => if n > 0 && n <= 65535 {
                    Some(n as u16)
                } else {
                    Some(DEFAULT_PLUGIN_PORT)
                },
                None => Some(DEFAULT_PLUGIN_PORT),
            }
        },
        None => {
            if is_dotted_quad(line) {
                Some(DEFAULT_PLUGIN_PORT)
            } else {
                None
            }
        },
    }
}

/// The port that the gateway file gives.
pub fn gateway_file_port(file: &str) -> (port: Option<u16>)
    ensures
        port == gateway_port(file@),
{
    let lines = split(file, '\n');
    let ghost views = crate::text::split_on(file@, '\n');
    let mut i: usize = 0;
    while i < lines.len()
        invariant
            i <= lines@.len(),
            views == crate::text::texts(lines@),
            first_port(views, 0) == first_port(views, i as int),
            gateway_port(file@) == first_port(views, 0),
        decreases lines@.len() - i,
    {
        let line = trimmed(lines[i].as_str());
        assert(views[i as int] == lines@[i as int]@);
        let port = read_line_port(line.as_str());
        if port.is_some() {
            return port;
        }
        i += 1;
    }
    None
}

/// The port to dial, from the port setting and the text of the gateway file.
pub fn plugin_port(setting: Option<&str>, file: Option<&str>) -> (port: u16)
    ensures
        port == chosen_port(
            match setting {
                Some(text) => Some(text@),
                None => None,
            },
            match file {
                Some(text) => Some(text@),
                None => None,
            },
        ),
{
    match setting {
        Some(text) => match read_number(trimmed(text).as_str(), u16::MAX as u64) {
            Some(n) => if n != 0 {
                n as u16
            } else {
                DEFAULT_PLUGIN_PORT
            },
            None => DEFAULT_PLUGIN_PORT,
        },
        None => match file {
            Some(text) => match gateway_file_port(text) {
                Some(port) => port,
                None => DEFAULT_PLUGIN_PORT,
            },
            None => DEFAULT_PLUGIN_PORT,
        },
    }
}

/// The address of the game on this machine.
pub fn local_address(port: u16) -> (address: String)
    ensures
        address@ == "127.0.0.1:"@ + crate::text::decimal(port as nat),
{
    let mut address = "127.0.0.1:".to_owned();
    address.append(decimal_text(port as u64).as_str());
    address
}

/// The address to dial: the one that is set, where it is an address; else this machine.
/// `given` is the address setting where it could be read as an address.
pub fn plugin_addr(given: Option<String>, port_setting: Option<&str>, file: Option<&str>) -> (
    address: String)
    ensures
        address@ == match given {
            Some(text) => text@,
            None => "127.0.0.1:"@ + crate::text::decimal(
                chosen_port(
                    match port_setting {
                        Some(text) => Some(text@),
                        None => None,
                    },
                    match file {
                        Some(text) => Some(text@),
                        None => None,
                    },
                ) as nat,
            ),
        },
{
    match given {
        Some(text) => text,
        None => local_address(plugin_port(port_setting, file)),
    }
}

/// The port to dial is never 0.
pub proof fn law_port_is_never_zero(setting: Option<Seq<char>>, file: Option<Seq<char>>)
    ensures
        chosen_port(setting, file) > 0,
{
    if setting is None && file is Some {
        lemma_first_port(crate::text::split_on(file.unwrap(), '\n'), 0);
    }
}

proof fn lemma_first_port(lines: Seq<Seq<char>>, i: int)
    ensures
        first_port(lines, i) is Some ==> first_port(lines, i).unwrap() > 0,
    decreases lines.len() - i,
{
    if 0 <= i < lines.len() {
        lemma_first_port(lines, i + 1);
    }
}

/// A port that is set is the one that is dialled, whatever the gateway file says.
pub proof fn law_set_port_is_dialled(port: u16, file: Option<Seq<char>>)
    requires
        port > 0,
    ensures
        chosen_port(Some(crate::text::decimal(port as nat)), file) == port,
{
    lemma_trimmed_decimal(port as nat);
    crate::text::law_decimals_read_back(port as nat, u16::MAX as nat);
}

proof fn lemma_trimmed_decimal(n: nat)
    ensures
        crate::text::trim(crate::text::decimal(n)) == crate::text::decimal(n),
{
    let digits = crate::text::decimal(n);
    crate::snapshots::lemma_decimal_digits(n);
    assert(crate::text::is_digit(digits[0]));
    assert(crate::text::is_digit(digits[digits.len() - 1]));
    assert(crate::text::trim_start(digits) == digits);
}

/// Without a setting the first line of the gateway file that holds an address gives the port: the
/// one behind its colon, and the default where none stands there.
pub proof fn law_gateway_line_gives_the_port(
    lines: Seq<Seq<char>>,
    i: int,
    host: Seq<char>,
    port: u16,
)
    requires
        0 <= i < lines.len(),
        is_quad(host),
        forall|j: int| 0 <= j < i ==> !is_quad(line_host(crate::text::trim(#[trigger] lines[j]))),
        port > 0,
    ensures
        crate::text::trim(lines[i]) == host + seq![':'] + crate::text::decimal(port as nat)
            ==> first_port(lines, 0) == Some(port),
        crate::text::trim(lines[i]) == host && !host.contains(':') ==> first_port(lines, 0) == Some(
            7878u16,
        ),
{
    lemma_first_line(lines, 0, i);
    reveal_strlit(":");
    let line = crate::text::trim(lines[i]);
    let digits = crate::text::decimal(port as nat);
    crate::snapshots::lemma_decimal_digits(port as nat);
    crate::text::law_decimals_read_back(port as nat, u32::MAX as nat);
    if line == host + seq![':'] + digits {
        let at = host.len() as int;
        assert(line.subrange(at, at + 1) =~= ":"@);
        assert forall|j: int| at < j implies !crate::text::occurs_at(line, ":"@, j) by {
            if crate::text::occurs_at(line, ":"@, j) {
                assert(line.subrange(j, j + 1)[0] == ':');
                assert(line[j] == digits[j - at - 1]);
                assert(crate::text::is_digit(digits[j - at - 1]));
            }
        }
        crate::text::lemma_rfind_is(line, ":"@, at);
        assert(line.take(at) =~= host);
        assert(line.skip(at + 1) =~= digits);
    }
    if line == host && !host.contains(':') {
        crate::text::lemma_rfind_from(line, ":"@, line.len() - 1);
        if crate::text::rfind(line, ":"@) is Some {
            let at = crate::text::rfind(line, ":"@)->Some_0;
            assert(line.subrange(at, at + 1)[0] == ':');
            assert(host[at] == ':');
        }
    }
}

proof fn lemma_first_line(lines: Seq<Seq<char>>, k: int, i: int)
    requires
        0 <= k <= i < lines.len(),
        is_quad(line_host(crate::text::trim(lines[i]))) || k <= i,
        forall|j: int| k <= j < i ==> !is_quad(line_host(crate::text::trim(#[trigger] lines[j]))),
    ensures
        line_port(crate::text::trim(lines[i])) is Some ==> first_port(lines, k) == line_port(
            crate::text::trim(lines[i]),
        ),
    decreases i - k,
{
    if k < i {
        assert(line_port(crate::text::trim(lines[k])) is None);
        lemma_first_line(lines, k + 1, i);
    }
}

/// An address is four groups of digits with dots between them.
pub proof fn law_addresses_have_four_groups(
    a: Seq<char>,
    b: Seq<char>,
    c: Seq<char>,
    d: Seq<char>,
)
    requires
        crate::text::is_digits(a),
        crate::text::is_digits(b),
        crate::text::is_digits(c),
        crate::text::is_digits(d),
    ensures
        is_quad(a + seq!['.'] + b + seq!['.'] + c + seq!['.'] + d),
        !is_quad(a + seq!['.'] + b + seq!['.'] + c),
        !is_quad(a + seq!['.'] + b),
        !is_quad(a),
{
    lemma_no_dot(a);
    lemma_no_dot(b);
    lemma_no_dot(c);
    lemma_no_dot(d);
    let ab = a + seq!['.'] + b;
    let abc = ab + seq!['.'] + c;
    crate::text::lemma_split_sum(a, b, '.');
    crate::text::lemma_split_sum(ab, c, '.');
    crate::text::lemma_split_sum(abc, d, '.');
    let parts = crate::text::split_on(abc + seq!['.'] + d, '.');
    assert(parts =~= seq![a, b, c, d]);
}

proof fn lemma_no_dot(text: Seq<char>)
    requires
        crate::text::is_digits(text),
    ensures
        crate::text::split_on(text, '.') == seq![text],
{
    assert(!text.contains('.')) by {
        if text.contains('.') {
            let k = text.index_of('.');
            assert(crate::text::is_digit(text[k]));
        }
    }
    crate::text::lemma_split_whole(text, '.');
}

} // verus!
