//! Kernel log lines: a coloured tag such as `[OK]` on the screen, followed
//! by the message, and the same line for the serial port.
use vstd::prelude::*;
use vstd::string::StringSliceAdditionalSpecFns;
use crate::screen::{cursor_after, cells_after, writes_within, lemma_write_concat};
use crate::tty::{Color, Writer};

verus! {

/// The text the screen shows after the tag: a space, the message and the end
/// of the line.
pub open spec fn log_tail(message: Seq<char>) -> Seq<char> {
    " "@ + message + "\n"@
}

/// The line the serial port receives: the tag, a space and the message.
pub open spec fn serial_line(prefix: Seq<char>, message: Seq<char>) -> Seq<char> {
    prefix + " "@ + message
}

/// Writes a log line on the screen: the tag `prefix` in `prefix_color`,
/// then a space, the message and a newline in the writer's colour, which is
/// left as it was.  Returns the line for the serial port.
pub fn log(writer: &mut Writer, prefix: &str, prefix_color: Color, message: &str) -> (r: String)
    requires
        old(writer).wf(),
        writes_within(old(writer).cursor(), prefix.spec_bytes() + vstd::utf8::encode_utf8(log_tail(message@))),
    ensures
        r@ == serial_line(prefix@, message@),
        final(writer).wf(),
        final(writer).current_color() == old(writer).current_color(),
        final(writer).cursor() == cursor_after(old(writer).cursor(), prefix.spec_bytes() + vstd::utf8::encode_utf8(log_tail(message@))),
        final(writer).cells() == cells_after(
            cells_after(old(writer).cells(), old(writer).cursor(), prefix.spec_bytes(), prefix_color),
            cursor_after(old(writer).cursor(), prefix.spec_bytes()),
            vstd::utf8::encode_utf8(log_tail(message@)),
            old(writer).current_color(),
        ),
{
    let mut tail = " ".to_owned();
    tail.append(message);
    tail.append("\n");
    let ghost tail_bytes = vstd::utf8::encode_utf8(tail@);
    proof {
        assert(tail@ == log_tail(message@));
        lemma_write_concat(writer.cells(), writer.cursor(), prefix.spec_bytes(), tail_bytes, prefix_color);
    }
    let color = writer.get_color();
    writer.set_color(prefix_color);
    writer.write_string(prefix);
    writer.set_color(color);
    writer.write_string(tail.as_str());
    let mut line = prefix.to_owned();
    line.append(" ");
    line.append(message);
    line
}

} // verus!
