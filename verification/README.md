# Spatiand

The decisions of a headset session: what a ray points at and what a drag does, what the launcher,
the keyboard and the side panel show, what a remote host says and is told, how loud it is and what
the machine is doing.

- `src/` is the library. Every function in it states what it returns, and Verus proves it. What
  holds of several functions together stands beside them as public proof functions.
- `tests/` runs it on concrete values.
- `app/` is what surrounds it: clocks, the kernel's files, the sound server's tools, threads, the
  network, and the geometry that is floating point.

## Measures

The library counts in whole numbers. Shares and levels are millionths, times nanoseconds, lengths
and angles in the room billionths of a metre or of a radian, places on a window's quad billionths of
it, places on a client's surface 256ths of a pixel, and places on the side panel 300ths of one.

## What is taken on trust

Three functions of the standard library: `String::push`, which appends a character, and
`char::to_uppercase` and `char::is_alphanumeric`, of which only that their result depends on the
character alone.
