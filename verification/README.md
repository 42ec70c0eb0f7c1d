# esp_rs

Logic of a two-board climate controller built on ESP32 boards.

* The **sensor board** reads an 8x8 thermal array over I2C, decodes the
  12-bit two's-complement pixels, and reports the bearing of the warmest
  region (the column-weighted centroid mapped across the field of view of
  ±π/3).
* The **fan board** fetches a remote command (power, target temperature,
  louvre angle), drives a fan and a louvre servo accordingly, and reports its
  temperature, humidity and the air speed it aims for.

Layout:

* `src/` — the verified library (Verus): `thermal` (frame decoding, centroid
  and its laws), `fan` (the command in force and the drive it calls for),
  `http` (report headers, decimal `content-length`, reply collection),
  `wifi` (credential capacity check).
* `app/` — the firmware around it: peripherals, Wi-Fi, HTTP, JSON, and the
  single-precision arithmetic of the angle, servo and fan duty.
* `tests/` — tests of the library.
