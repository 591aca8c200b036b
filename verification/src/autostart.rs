//! The launcher that starts the program at logon.

use vstd::prelude::*;

use crate::text;
use crate::win32::{law_utf16_survives, utf16, utf16_read, utf16_units};

verus! {

/// The script that starts the program, hidden, to watch the chat.
pub open spec fn launcher_script(exe: Seq<char>) -> Seq<char> {
    "Set s = CreateObject(\"WScript.Shell\")\r\ns.Run \"\"\""@ + exe + "\"\" watch\", 0, False\r\n"@
}

/// The two bytes of a unit, the lower one first.
pub open spec fn unit_bytes(u: u16) -> Seq<u8> {
    seq![(u % 0x100) as u8, (u / 0x100) as u8]
}

/// The bytes of units.
pub open spec fn units_bytes(units: Seq<u16>) -> Seq<u8>
    decreases units.len(),
{
    if units.len() == 0 {
        Seq::empty()
    } else {
        units_bytes(units.drop_last()) + unit_bytes(units.last())
    }
}

/// A text in a file of its own: the mark that tells how it is written, and its units.
pub open spec fn text_bytes(s: Seq<char>) -> Seq<u8> {
    seq![0xFFu8, 0xFEu8] + units_bytes(utf16(s))
}

fn push_text_bytes(out: &mut Vec<u8>, s: &str)
    ensures
        final(out)@ == old(out)@ + units_bytes(utf16(s@)),
{
    let units: Vec<u16> = utf16_units(s);
    let ghost front = out@;
    let mut i: usize = 0;
    assert(units@.take(0) =~= Seq::<u16>::empty());
    assert(front + units_bytes(units@.take(0)) =~= front);
    while i < units.len()
        invariant
            i <= units@.len(),
            out@ == front + units_bytes(units@.take(i as int)),
        decreases units@.len() - i,
    {
        let ghost was = out@;
        let u: u16 = units[i];
        out.push((u % 0x100) as u8);
        out.push((u / 0x100) as u8);
        proof {
            assert(units@.take(i + 1).drop_last() =~= units@.take(i as int));
            assert(out@ =~= was + unit_bytes(u));
            assert(out@ =~= front + units_bytes(units@.take(i + 1)));
        }
        i = i + 1;
    }
    assert(units@.take(units@.len() as int) =~= units@);
}

/// The bytes of the launcher's file. They are written so that a path in any script survives.
pub fn launcher_bytes(exe: &str) -> (r: Vec<u8>)
    ensures
        r@ == text_bytes(launcher_script(exe@)),
{
    let mut script: String = text::copy(
        "Set s = CreateObject(\"WScript.Shell\")\r\ns.Run \"\"\"",
    );
    script.push_str(exe);
    script.push_str("\"\" watch\", 0, False\r\n");
    let mut out: Vec<u8> = Vec::new();
    out.push(0xFF);
    out.push(0xFE);
    assert(out@ =~= seq![0xFFu8, 0xFEu8]);
    push_text_bytes(&mut out, script.as_str());
    out
}

/// The units that bytes stand for.
pub open spec fn bytes_read(b: Seq<u8>) -> Seq<u16>
    decreases b.len(),
{
    if b.len() < 2 {
        Seq::empty()
    } else {
        bytes_read(b.take(b.len() - 2)).push((b[b.len() - 2] + 0x100 * b[b.len() - 1]) as u16)
    }
}

proof fn lemma_bytes_read(units: Seq<u16>)
    ensures
        bytes_read(units_bytes(units)) == units,
    decreases units.len(),
{
    let b = units_bytes(units);
    if units.len() > 0 {
        let front = units.drop_last();
        let u = units.last();
        lemma_bytes_read(front);
        assert(b.take(b.len() - 2) =~= units_bytes(front));
        assert(b[b.len() - 2] == (u % 0x100) as u8 && b[b.len() - 1] == (u / 0x100) as u8);
        assert(units =~= front.push(u));
    } else {
        assert(bytes_read(b) =~= units);
    }
}

/// A text survives being written to a file of its own: behind the mark, it is read back as it was.
pub proof fn law_text_survives(s: Seq<char>)
    ensures
        text_bytes(s).take(2) == seq![0xFFu8, 0xFEu8],
        utf16_read(bytes_read(text_bytes(s).skip(2))) == s,
{
    assert(text_bytes(s).take(2) =~= seq![0xFFu8, 0xFEu8]);
    assert(text_bytes(s).skip(2) =~= units_bytes(utf16(s)));
    lemma_bytes_read(utf16(s));
    law_utf16_survives(s);
}

/// What to tell once the launcher was written or removed.
pub fn autostart_message(enabled: bool) -> (r: &'static str)
    ensures
        r@ == if enabled {
            "自動起動を設定しました（次回ログインから有効）"@
        } else {
            "自動起動を解除しました"@
        },
{
    if enabled {
        "自動起動を設定しました（次回ログインから有効）"
    } else {
        "自動起動を解除しました"
    }
}

/// The launcher starts the program with the word that makes it watch the chat, without a window.
pub proof fn law_launcher_watches(exe: Seq<char>)
    ensures
        launcher_script(exe) == "Set s = CreateObject(\"WScript.Shell\")\r\ns.Run \"\"\""@ + exe
            + "\"\" watch\", 0, False\r\n"@,
{
}

proof fn lemma_units_at(units: Seq<u16>, i: int)
    requires
        0 <= i < units.len(),
    ensures
        units_bytes(units).len() == 2 * units.len(),
        units_bytes(units)[2 * i] + 0x100 * units_bytes(units)[2 * i + 1] == units[i],
    decreases units.len(),
{
    let b = units_bytes(units);
    let front = units.drop_last();
    if front.len() > 0 {
        lemma_units_at(
            front,
            if i < front.len() {
                i
            } else {
                0
            },
        );
    } else {
        assert(units_bytes(front) =~= Seq::<u8>::empty());
    }
    if i < front.len() {
        assert(b[2 * i] == units_bytes(front)[2 * i]);
        assert(b[2 * i + 1] == units_bytes(front)[2 * i + 1]);
    }
}

/// In the file the mark `FF FE` comes first, and then each unit of the text with its lower byte
/// before its upper one, as the mark says.
pub proof fn law_file_is_little_endian(s: Seq<char>, i: int)
    requires
        0 <= i < utf16(s).len(),
    ensures
        text_bytes(s)[0] == 0xFF,
        text_bytes(s)[1] == 0xFE,
        text_bytes(s).len() == 2 + 2 * utf16(s).len(),
        text_bytes(s)[2 + 2 * i] + 0x100 * text_bytes(s)[3 + 2 * i] == utf16(s)[i],
{
    lemma_units_at(utf16(s), i);
    let b = text_bytes(s);
    assert(b[2 + 2 * i] == units_bytes(utf16(s))[2 * i]);
    assert(b[3 + 2 * i] == units_bytes(utf16(s))[2 * i + 1]);
}

} // verus!
