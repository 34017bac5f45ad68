# guineu

The console and shell of the GUIneu kernel-mode debug shell, verified with Verus.

- `framebuffer`: a pixel buffer with pixel, rectangle and picture drawing, clipped to the screen.
- `font`: the 8x8 glyph table of the `font8x8` crate.
- `text`: the text writer: glyph drawing, cursor movement, line wrapping, backspace and scrolling.
- `boot`, `demo`: the boot splash and the graphics demo, one drawing step per call, with the pause that follows each step.
- `input`: keyboard line input with echo.
- `pathtracer`, `shell`, `chars`: the built-in commands and the handling of one shell line.
- `tab_handler`: the two console tabs.
- `clear`: clearing the console.
- `allocator`: a bump allocator.

`app/` runs the shell on a hosted machine: the screen is kept in memory, the
initial ramdisk is a directory given on the command line, keys come from
standard input, and a timer tick is a millisecond.
