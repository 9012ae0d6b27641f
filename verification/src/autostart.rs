//! Launch at login: the LaunchAgent property list.
//!
//! Only `RunAtLoad` is set, not `KeepAlive`: with KeepAlive the user could not
//! quit the application. The plist file itself is the single source of truth
//! for whether launching at login is enabled.

use vstd::prelude::*;
use vstd::string::*;

verus! {

pub const LABEL: &'static str = "dev.rctool.tray";

/// Calls `String::push`: appends one character.
#[verifier::external_body]
fn push_char(s: &mut String, c: char)
    ensures
        final(s)@ == old(s)@.push(c),
{
    s.push(c);
}

/// A character as it appears in XML text: `&`, `<` and `>` are escaped.
pub open spec fn escape_char(c: char) -> Seq<char> {
    if c == '&' {
        "&amp;"@
    } else if c == '<' {
        "&lt;"@
    } else if c == '>' {
        "&gt;"@
    } else {
        seq![c]
    }
}

pub open spec fn xml_escape(s: Seq<char>) -> Seq<char>
    decreases s.len(),
{
    if s.len() == 0 {
        Seq::empty()
    } else {
        xml_escape(s.drop_last()) + escape_char(s.last())
    }
}

/// Escapes a path for use as XML text.
pub fn escape_xml_text(text: &str) -> (r: String)
    ensures
        r@ == xml_escape(text@),
{
    let mut out = String::new();
    let n = text.unicode_len();
    let mut i: usize = 0;
    while i < n
        invariant
            n == text@.len(),
            i <= n,
            out@ == xml_escape(text@.take(i as int)),
        decreases n - i,
    {
        let c = text.get_char(i);
        assert(text@.take(i + 1).drop_last() =~= text@.take(i as int));
        assert(text@.take(i + 1).last() == c);
        if c == '&' {
            out.append("&amp;");
        } else if c == '<' {
            out.append("&lt;");
        } else if c == '>' {
            out.append("&gt;");
        } else {
            push_char(&mut out, c);
            assert(out@ =~= xml_escape(text@.take(i as int)) + seq![c]);
        }
        i = i + 1;
    }
    assert(text@.take(n as int) =~= text@);
    out
}

pub open spec fn plist_head() -> Seq<char> {
    "<?xml version=\"1.0\" encoding=\"UTF-8\"?>
<!DOCTYPE plist PUBLIC \"-//Apple//DTD PLIST 1.0//EN\" \"http://www.apple.com/DTDs/PropertyList-1.0.dtd\">
<plist version=\"1.0\">
<dict>
    <key>Label</key>
    <string>dev.rctool.tray</string>
    <key>ProgramArguments</key>
    <array>
        <string>"@
}

pub open spec fn plist_tail() -> Seq<char> {
    "</string>
    </array>
    <key>RunAtLoad</key>
    <true/>
    <key>ProcessType</key>
    <string>Interactive</string>
</dict>
</plist>
"@
}

/// The LaunchAgent property list that starts `program` at login.
pub fn plist_body(program: &str) -> (r: String)
    ensures
        r@ == plist_head() + xml_escape(program@) + plist_tail(),
{
    let escaped = escape_xml_text(program);
    let mut out = String::from_str("<?xml version=\"1.0\" encoding=\"UTF-8\"?>
<!DOCTYPE plist PUBLIC \"-//Apple//DTD PLIST 1.0//EN\" \"http://www.apple.com/DTDs/PropertyList-1.0.dtd\">
<plist version=\"1.0\">
<dict>
    <key>Label</key>
    <string>dev.rctool.tray</string>
    <key>ProgramArguments</key>
    <array>
        <string>");
    out.append(escaped.as_str());
    out.append("</string>
    </array>
    <key>RunAtLoad</key>
    <true/>
    <key>ProcessType</key>
    <string>Interactive</string>
</dict>
</plist>
");
    out
}

} // verus!
