//! Clearing the console.
use vstd::prelude::*;
use crate::framebuffer::on_screen;
use crate::text::{Writer, CLEAR_COLOR};

verus! {

/// Clears the screen and moves the cursor to the top-left corner.
pub fn clear(writer: &mut Writer)
    requires
        old(writer).framebuffer.wf(),
    ensures
        final(writer).framebuffer.wf(),
        final(writer)@ == old(writer)@.screen_cleared().cursor_reset(),
        forall|x: int, y: int| on_screen(old(writer)@.screen.width, old(writer)@.screen.height, x, y)
            ==> #[trigger] final(writer)@.screen.pixel(x, y) == CLEAR_COLOR,
        final(writer).cursor_x == 0 && final(writer).cursor_y == 0,
{
    writer.clear_screen();
    writer.reset_cursor();
}

} // verus!
