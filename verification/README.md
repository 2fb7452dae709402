# trmnl-display

A server for the [TRMNL](https://usetrmnl.com) e-ink display. It shows four weeks of a Google
calendar, from the Monday of the current week on, or the current month beside the weather. A
device registers itself with `/api/setup`, asks `/api/display` for its picture and fetches it as
a one-bit BMP file from `/api/image/…`.

## Layout

- `src/` is the library. Its behaviour is stated in contracts and proved with Verus.
  - `calendar`, `clock`, `config`, `oauth`, `urlencoding`: settings, access tokens, the request
    to the calendar and the events in its answer.
  - `agenda`, `draw`, `four_weeks`, `month`, `weather`: what is drawn, as a list of commands.
  - `image`, `dither`, `bmp`: the picture and its files.
  - `headers`, `devices`, `server`: the exchange with a device.
- `app/` is the program around it: HTTP, the environment, fonts, and text and lines on the
  picture. Started with the argument `month`, it serves the month view at `/display`.
- `tests/` runs the library on concrete values.

Functions marked `#[verifier::external_body]` call outside crates; what is claimed of each call
stands above it.

## Settings

| Variable | Default | |
|---|---|---|
| `BASE_URL` | `http://localhost:3000` | the address at which devices reach the server |
| `GOOGLE_CALENDAR_ID` | `primary` | the calendar |
| `GOOGLE_REFRESH_TOKEN`, `GOOGLE_CLIENT_ID`, `GOOGLE_CLIENT_SECRET` | – | credentials that renew themselves |
| `GOOGLE_API_KEY` | – | a key for public calendars |
| `GOOGLE_OAUTH_TOKEN` | – | a fixed access token |
| `DISPLAY_TZ` | `UTC` | the time zone of the four-week view |
| `WEATHER_LAT`, `WEATHER_LON` | Paris | the place of the weather |
| `REFRESH_RATE_SECS` | `900` | how often a device asks again |
| `BIND` | `0.0.0.0:3000` | the address to listen on |
| `TRMNL_API_KEY` | – | a secret that callers of `/api/display` and `/display` must show |

Fonts are read from `assets/font-regular.ttf` and `assets/font-bold.ttf`.
