# wie

An emulator of Korean feature phones: the parts that decide and compute, proved with
Verus, and a thin program around them.

- `src/` is the library. Every function states what it does in its contract, and Verus
  proves it. The few things that other crates do behind the library (decoding pictures,
  enlarging them, parsing SoundFonts, the registers of the processor, views of bytes as
  words) are declared with what is believed of them.
- `tests/` runs the library.
- `app/` is the program: the window, the gamepads, the MIDI ports, the synthesizer and
  the libretro interface. It reads and sends; what to do it asks the library.

| Part | Modules |
| --- | --- |
| Pictures | `canvas`, `pixel`, `image_decode`, `framebuffer`, `video`, `scaler` |
| Sound | `audio`, `playback`, `voices`, `midi_output`, `sound_font`, `font_tables`, `smaf_player`, `ordered` |
| Processor and guest | `arm_engine`, `arm_memory`, `guest`, `guest_machine`, `media` |
| Desktop | `start`, `window`, `input_state`, `gamepad`, `config`, `config_text`, `keys` |
| Libretro | `lifecycle`, `retro_core`, `retro_input`, `options`, `option_list`, `shared`, `content`, `storage` |
| Common | `bytes`, `text`, `table`, `pressed` |
