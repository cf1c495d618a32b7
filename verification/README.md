# mirajazz

A verified library for driving button and encoder decks over HID.

The library in `src/` decides; it does no input or output. Its contracts are proved by Verus.

- `device`: a device and the calls on it, each a list of reports given byte by byte.
- `call`: a call under way. It asks for one report after another to be written, or for an image
  to be converted, and `Device::resume` tells it what came of that.
- `report`: the bytes of each report, and how an image is split into packets.
- `query`: which of the devices that the host finds are wanted.
- `watcher`: events about devices, out of what the host tells about ids.
- `text`: text in the bytes that a device sends.
- `device_laws`, `device_history`, `watcher_laws`: what holds of all devices, calls and watchers.

`app/` performs what the library asks for, with the HID system of the host, asynchronously.
