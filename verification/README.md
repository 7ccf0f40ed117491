# muxing

Encodes generated video and audio into one file. Each stream has ten seconds of
frames.

By default the program does not end by itself: a stream that has passed its end has
no more frames, but still counts as going on until a call fails, so the two streams
go on having their turns. With `--raw`, a stream that has passed its end is flushed,
and the program ends when both encoders have nothing left.

* `src/` is the verified library. `time` compares timestamps in different time
  bases; `picture` and `tone` make what the streams show and play; `options` reads
  encoder options; `codec` configures the encoders; `stream` holds the two streams
  and stamps their frames; `writer` says what is asked of an encoder
  and of the file in turn; `mux` says which stream is written next; `raw` holds what
  differs where the media library is driven through its C interface.
* `app/` is the program: it makes the calls into FFmpeg, reads the clock and prints.
* `tests/` runs the library on concrete values.
