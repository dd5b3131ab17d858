# sdr_radio

An FM broadcast receiver for RTL-SDR dongles with a terminal spectrum display,
audio output and an RDS bit log.

- `src/` is the library, each function with its contract:
  - `fir`: decimating FIR delay line (which samples each output multiplies);
  - `audio`: the sample source of the audio callback, and interleaved frame filling;
  - `rds`: differential decoding of RDS bits and their text log form;
  - `control`: the radio thread's and demodulator thread's command handling;
  - `input`: keyboard handling of the interface and the frequency prompt;
  - `spectrum`: fitting sample blocks to the FFT length and reordering FFT bins.
- `app/` is the program: device, audio and terminal I/O, threads, and the
  floating-point signal processing (mixing, FFT, FM demodulation, filter sums).
- `tests/` runs the library on concrete values.
